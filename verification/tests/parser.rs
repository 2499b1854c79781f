use lib::parser::{separar_argumentos, serializar};

#[test]
fn test_01_serializar_valor_simple_con_comillas() {
    let resultado = serializar("valor1");
    assert_eq!(resultado, "\"valor1\"");
}

#[test]
fn test_02_serializar_valor_con_espacio() {
    let resultado = serializar("valor 2");
    assert_eq!(resultado, "\"valor 2\"");
}

#[test]
fn test_03_serializar_valor_con_comillas() {
    let resultado = serializar("valor\"3");
    assert_eq!(resultado, "\"valor\\\"3\"");
}

#[test]
fn test_04_serializar_valor_con_comillas_y_espacio() {
    let resultado = serializar("valor \"4");
    assert_eq!(resultado, "\"valor \\\"4\"");
}

#[test]
fn test_05_separar_argumentos_simple() {
    let resultado = separar_argumentos("set clave1 valor1");
    assert_eq!(resultado, vec!["set", "clave1", "valor1"]);
}

#[test]
fn test_06_separar_argumentos_para_unset() {
    let resultado = separar_argumentos("set clave1");
    assert_eq!(resultado, vec!["set", "clave1"]);
}

#[test]
fn test_07_separar_argumentos_con_espacios() {
    let resultado = separar_argumentos(r#"set "clave 1" "valor 1""#);
    assert_eq!(resultado, vec!["set", "clave 1", "valor 1"]);
}

#[test]
fn test_08_separar_argumentos_con_comillas() {
    let resultado = separar_argumentos(r#"set "clave \"1" valor1"#);
    assert_eq!(resultado, vec!["set", "clave \"1", "valor1"]);
}

#[test]
fn test_09_separar_argumentos_con_comillas_y_espacios() {
    let resultado = separar_argumentos(r#"set "clave \"1" "valor 1""#);
    assert_eq!(resultado, vec!["set", "clave \"1", "valor 1"]);
}

#[test]
fn test_10_separar_argumentos_con_comillas_y_espacios() {
    let resultado = separar_argumentos(r#"set clave\"1 valor\"1"#);
    assert_eq!(resultado, vec!["set", "clave\"1", "valor\"1"]);
}

#[test]
fn separar_argumentos_texto_vacio_y_espacios() {
    assert!(separar_argumentos("").is_empty());
    assert!(separar_argumentos("    ").is_empty());
    assert_eq!(separar_argumentos("  a   b  "), vec!["a", "b"]);
}

#[test]
fn separar_argumentos_comillas_vacias_no_dan_argumento() {
    assert!(separar_argumentos("\"\"").is_empty());
    assert_eq!(separar_argumentos("set \"clave\" \"\""), vec!["set", "clave"]);
}

#[test]
fn separar_argumentos_barra_escapa_cualquier_caracter() {
    assert_eq!(separar_argumentos(r"a\ b c"), vec!["a b", "c"]);
    assert_eq!(separar_argumentos(r"a\\b"), vec![r"a\b"]);
    assert_eq!(separar_argumentos(r"ab\"), vec!["ab"]);
}

#[test]
fn separar_argumentos_comillas_sin_cerrar() {
    assert_eq!(separar_argumentos("set \"clave 1"), vec!["set", "clave 1"]);
    assert_eq!(separar_argumentos("a\"b c\"d"), vec!["ab cd"]);
}

#[test]
fn serializar_texto_vacio() {
    assert_eq!(serializar(""), "\"\"");
}

#[test]
fn serializar_no_escapa_la_barra() {
    assert_eq!(serializar(r"a\b"), "\"a\\b\"");
}

#[test]
fn ley_separar_serializado_en_valores_concretos() {
    for t in ["clave", "valor con espacios", "dice \"hola\"", "ñandú", "  borde  ", "a\"b\"c"] {
        assert_eq!(separar_argumentos(&serializar(t)), vec![t]);
    }
}

#[test]
fn separar_serializado_falla_con_barra() {
    assert_eq!(separar_argumentos(&serializar(r"a\b")), vec!["ab"]);
}

#[test]
fn ley_separar_sin_comillas_en_valores_concretos() {
    for t in ["set clave valor", "  a  b ", "a\tb c\nd", "", "   ", "uno"] {
        let esperado: Vec<String> = t.split(' ').filter(|p| !p.is_empty()).map(|p| p.to_string()).collect();
        assert_eq!(separar_argumentos(t), esperado);
    }
}
