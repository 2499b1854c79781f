use lib::comandos::{comando_set, Comando};
use lib::comunicacion::{atender_comando, interpretar_linea, mensaje_de_respuesta, recortar, texto_decimal, Accion, Respuesta};
use lib::diccionario::Diccionario;
use lib::errores::{ErrorCliente, ErrorServidorDatos};
use lib::storage::{reconstruir_estado, ArchivoLeido};

fn s(t: &str) -> String {
    t.to_string()
}

#[test]
fn texto_decimal_valores() {
    assert_eq!(texto_decimal(0), "0");
    assert_eq!(texto_decimal(7), "7");
    assert_eq!(texto_decimal(10), "10");
    assert_eq!(texto_decimal(1234567), "1234567");
    assert_eq!(texto_decimal(usize::MAX), usize::MAX.to_string());
}

#[test]
fn mensajes_de_respuesta() {
    assert_eq!(mensaje_de_respuesta(&Respuesta::Hecho), "OK\n");
    assert_eq!(mensaje_de_respuesta(&Respuesta::Valor(s("Alexis"))), "Alexis\n");
    assert_eq!(mensaje_de_respuesta(&Respuesta::Cantidad(42)), "42\n");
    assert_eq!(
        mensaje_de_respuesta(&Respuesta::ErrorCliente(ErrorCliente::NotFound)),
        "ERROR: NOT FOUND\n"
    );
    assert_eq!(
        mensaje_de_respuesta(&Respuesta::ErrorServidor(ErrorServidorDatos::InvalidLogFile)),
        "ERROR: INVALID LOG FILE\n"
    );
}

#[test]
fn recortar_quita_blancos_de_los_bordes() {
    assert_eq!(recortar("  set a b \r\n"), "set a b");
    assert_eq!(recortar("\t \n"), "");
    assert_eq!(recortar("x"), "x");
    assert_eq!(recortar(" a  b "), "a  b");
}

#[test]
fn interpretar_lineas_del_cliente() {
    assert_eq!(interpretar_linea("   \n"), None);
    assert_eq!(interpretar_linea("set nombre Alexis\n"), Some(Ok(Comando::Asignar(s("nombre"), s("Alexis")))));
    assert_eq!(interpretar_linea("get nombre"), Some(Ok(Comando::Get(s("nombre")))));
    assert_eq!(interpretar_linea("set nombre"), Some(Ok(Comando::Unset(s("nombre")))));
    assert_eq!(interpretar_linea("length"), Some(Ok(Comando::Length)));
    assert_eq!(interpretar_linea("snapshot\r\n"), Some(Ok(Comando::Snapshot)));
    assert_eq!(interpretar_linea("borrar x"), Some(Err(ErrorCliente::UnknownCommand)));
    assert_eq!(interpretar_linea("\"\""), Some(Err(ErrorCliente::UnknownCommand)));
    assert_eq!(interpretar_linea("get"), Some(Err(ErrorCliente::MissingArgument)));
    assert_eq!(interpretar_linea("length x"), Some(Err(ErrorCliente::ExtraArgument)));
}

#[test]
fn atender_comando_en_memoria() {
    let mut d = Diccionario::nuevo();
    match atender_comando(&mut d, Comando::Asignar(s("k"), s("v"))) {
        Accion::Registrar(l) => assert_eq!(l, comando_set(s("k"), s("v"))),
        _ => panic!("se esperaba registrar"),
    }
    match atender_comando(&mut d, Comando::Get(s("k"))) {
        Accion::Responder(Respuesta::Valor(v)) => assert_eq!(v, "v"),
        _ => panic!("se esperaba el valor"),
    }
    match atender_comando(&mut d, Comando::Length) {
        Accion::Responder(Respuesta::Cantidad(n)) => assert_eq!(n, 1),
        _ => panic!("se esperaba la cantidad"),
    }
    match atender_comando(&mut d, Comando::Unset(s("k"))) {
        Accion::Registrar(l) => assert_eq!(l, "set \"k\"\n"),
        _ => panic!("se esperaba registrar"),
    }
    match atender_comando(&mut d, Comando::Get(s("k"))) {
        Accion::Responder(Respuesta::ErrorCliente(e)) => assert_eq!(e, ErrorCliente::NotFound),
        _ => panic!("se esperaba NOT FOUND"),
    }
    assert!(matches!(atender_comando(&mut d, Comando::Snapshot), Accion::Compactar));
}

#[test]
fn ley_memoria_igual_archivos_en_valores_concretos() {
    let mut d = Diccionario::nuevo();
    let mut log = String::new();
    let comandos = vec![
        Comando::Asignar(s("a"), s("1")),
        Comando::Asignar(s("b c"), s("2")),
        Comando::Unset(s("a")),
        Comando::Length,
        Comando::Asignar(s("b c"), s("3")),
    ];
    for c in comandos {
        if let Accion::Registrar(l) = atender_comando(&mut d, c) {
            log.push_str(&l);
        }
        let desde_archivos = reconstruir_estado(&ArchivoLeido::Ausente, &ArchivoLeido::Contenido(log.clone())).unwrap();
        assert_eq!(desde_archivos.cantidad(), d.cantidad());
        for k in ["a", "b c"] {
            assert_eq!(desde_archivos.obtener(k), d.obtener(k));
        }
    }
}

#[test]
fn recortar_usa_el_conjunto_de_blancos_de_unicode() {
    let blancos: Vec<u32> = vec![
        0x9, 0xA, 0xB, 0xC, 0xD, 0x20, 0x85, 0xA0, 0x1680, 0x2000, 0x2001, 0x2002, 0x2003, 0x2004, 0x2005,
        0x2006, 0x2007, 0x2008, 0x2009, 0x200A, 0x2028, 0x2029, 0x202F, 0x205F, 0x3000,
    ];
    for n in 0u32..=0x10FFFF {
        if let Some(c) = char::from_u32(n) {
            assert_eq!(c.is_whitespace(), blancos.contains(&n), "U+{:04X}", n);
        }
    }
    let t: String = ['\u{3000}', 'a', '\u{85}'].iter().collect();
    assert_eq!(recortar(&t), "a");
}
