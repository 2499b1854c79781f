use lib::diccionario::Diccionario;

#[test]
fn diccionario_insertar_obtener_quitar() {
    let mut d = Diccionario::nuevo();
    assert_eq!(d.cantidad(), 0);
    d.insertar("a".to_string(), "1".to_string());
    d.insertar("b".to_string(), "2".to_string());
    d.insertar("a".to_string(), "3".to_string());
    assert_eq!(d.cantidad(), 2);
    assert_eq!(d.obtener("a"), Some("3".to_string()));
    assert_eq!(d.obtener("b"), Some("2".to_string()));
    d.quitar("a");
    assert_eq!(d.obtener("a"), None);
    assert_eq!(d.cantidad(), 1);
    d.quitar("zzz");
    assert_eq!(d.cantidad(), 1);
    let (k, v) = d.entrada(0);
    assert_eq!((k.as_str(), v.as_str()), ("b", "2"));
}
