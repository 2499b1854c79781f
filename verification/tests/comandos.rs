use lib::comandos::{
    comando_desde_argumentos, comando_get, comando_length, comando_set, comando_snapshot, comando_unset,
    contenido_de, crear_comando, Comando, TipoComando,
};
use lib::errores::ErrorMiniKv;
use lib::storage::{reconstruir_estado, ArchivoLeido};
use std::str::FromStr;

fn s(t: &str) -> String {
    t.to_string()
}

fn contenido(t: &str) -> ArchivoLeido {
    ArchivoLeido::Contenido(t.to_string())
}

#[test]
fn test_02_comando_set_escribe_linea_en_log() {
    assert_eq!(comando_set(s("clave1"), s("valor1")), "set \"clave1\" \"valor1\"\n");
}

#[test]
fn test_04_comando_unset_escribe_linea_en_log() {
    assert_eq!(comando_unset(s("clave1")), "set \"clave1\"\n");
}

#[test]
fn comando_set_serializa_comillas_y_espacios() {
    assert_eq!(comando_set(s("mi clave"), s("di \"hola\"")), "set \"mi clave\" \"di \\\"hola\\\"\"\n");
}

#[test]
fn tipo_comando_desde_texto() {
    assert_eq!(TipoComando::desde_texto("set"), Ok(TipoComando::Asignar));
    assert_eq!(TipoComando::desde_texto("get"), Ok(TipoComando::Get));
    assert_eq!(TipoComando::desde_texto("length"), Ok(TipoComando::Length));
    assert_eq!(TipoComando::desde_texto("snapshot"), Ok(TipoComando::Snapshot));
    assert_eq!(TipoComando::desde_texto("SET"), Err(ErrorMiniKv::UnknownCommand));
    assert_eq!(TipoComando::from_str("borrar"), Err(ErrorMiniKv::UnknownCommand));
    assert_eq!("get".parse::<TipoComando>(), Ok(TipoComando::Get));
}

#[test]
fn crear_comando_casos_validos() {
    assert_eq!(
        crear_comando(TipoComando::Asignar, Some(s("k")), Some(s("v")), None),
        Ok(Comando::Asignar(s("k"), s("v")))
    );
    assert_eq!(crear_comando(TipoComando::Asignar, Some(s("k")), None, None), Ok(Comando::Unset(s("k"))));
    assert_eq!(crear_comando(TipoComando::Get, Some(s("k")), None, None), Ok(Comando::Get(s("k"))));
    assert_eq!(crear_comando(TipoComando::Length, None, None, None), Ok(Comando::Length));
    assert_eq!(crear_comando(TipoComando::Snapshot, None, None, None), Ok(Comando::Snapshot));
}

#[test]
fn crear_comando_errores() {
    assert_eq!(
        crear_comando(TipoComando::Asignar, Some(s("k")), Some(s("v")), Some(s("x"))),
        Err(ErrorMiniKv::ExtraArgument)
    );
    assert_eq!(crear_comando(TipoComando::Get, Some(s("k")), Some(s("v")), None), Err(ErrorMiniKv::ExtraArgument));
    assert_eq!(crear_comando(TipoComando::Length, Some(s("k")), None, None), Err(ErrorMiniKv::ExtraArgument));
    assert_eq!(crear_comando(TipoComando::Snapshot, Some(s("k")), None, None), Err(ErrorMiniKv::ExtraArgument));
    assert_eq!(crear_comando(TipoComando::Asignar, None, None, None), Err(ErrorMiniKv::MissingArgument));
    assert_eq!(crear_comando(TipoComando::Get, None, None, None), Err(ErrorMiniKv::MissingArgument));
    assert_eq!(crear_comando(TipoComando::Get, Some(s("k")), None, Some(s("x"))), Err(ErrorMiniKv::ExtraArgument));
    assert_eq!(crear_comando(TipoComando::Length, None, Some(s("v")), None), Err(ErrorMiniKv::ExtraArgument));
    assert_eq!(crear_comando(TipoComando::Length, None, None, Some(s("x"))), Err(ErrorMiniKv::ExtraArgument));
    assert_eq!(crear_comando(TipoComando::Snapshot, None, Some(s("v")), Some(s("x"))), Err(ErrorMiniKv::ExtraArgument));
}

#[test]
fn comando_desde_argumentos_casos() {
    assert_eq!(comando_desde_argumentos(&vec![]), Err(ErrorMiniKv::UnknownCommand));
    assert_eq!(comando_desde_argumentos(&vec![s("borrar"), s("k")]), Err(ErrorMiniKv::UnknownCommand));
    assert_eq!(comando_desde_argumentos(&vec![s("get"), s("k")]), Ok(Comando::Get(s("k"))));
    assert_eq!(
        comando_desde_argumentos(&vec![s("set"), s("k"), s("v"), s("x"), s("y")]),
        Err(ErrorMiniKv::ExtraArgument)
    );
    assert_eq!(comando_desde_argumentos(&vec![s("length")]), Ok(Comando::Length));
}

#[test]
fn test_01_integracion_set_get() {
    let mut log = String::new();
    log.push_str(&comando_set(s("clave1"), s("valor1")));
    let resultado = comando_get(s("clave1"), &ArchivoLeido::Ausente, &contenido(&log)).unwrap();
    assert_eq!(resultado, s("valor1"));
}

#[test]
fn test_02_integracion_set_sobrescritura() {
    let mut log = String::new();
    log.push_str(&comando_set(s("clave1"), s("valor1")));
    log.push_str(&comando_set(s("clave1"), s("valor2")));
    let resultado = comando_get(s("clave1"), &ArchivoLeido::Ausente, &contenido(&log)).unwrap();
    assert_eq!(resultado, s("valor2"));
}

#[test]
fn test_03_integracion_unset() {
    let mut log = String::new();
    log.push_str(&comando_set(s("clave1"), s("valor1")));
    log.push_str(&comando_unset(s("clave1")));
    let resultado = comando_get(s("clave1"), &ArchivoLeido::Ausente, &contenido(&log));
    assert_eq!(resultado, Err(ErrorMiniKv::NotFound));
}

#[test]
fn test_04_integracion_snapshot() {
    let mut log = String::new();
    log.push_str(&comando_set(s("clave1"), s("valor1")));
    let data = comando_snapshot(&ArchivoLeido::Ausente, &contenido(&log)).unwrap();
    assert!(data.contains("clave1"));
    assert_eq!(data, "\"clave1\" \"valor1\"\n");
    let resultado = comando_get(s("clave1"), &contenido(&data), &contenido("")).unwrap();
    assert_eq!(resultado, s("valor1"));
}

#[test]
fn test_05_integracion_length() {
    let mut log = String::new();
    log.push_str(&comando_set(s("clave1"), s("valor1")));
    log.push_str(&comando_set(s("clave2"), s("valor2")));
    let resultado = comando_length(&ArchivoLeido::Ausente, &contenido(&log)).unwrap();
    assert_eq!(resultado, 2);
}

#[test]
fn comandos_propagan_errores_de_archivos() {
    let malo = contenido("x\n");
    assert_eq!(comando_get(s("k"), &malo, &ArchivoLeido::Ausente), Err(ErrorMiniKv::InvalidDataFile));
    assert_eq!(comando_length(&ArchivoLeido::Ausente, &malo), Err(ErrorMiniKv::InvalidLogFile));
    assert_eq!(comando_snapshot(&ArchivoLeido::NoSePuedeLeer, &ArchivoLeido::Ausente), Err(ErrorMiniKv::InvalidDataFile));
}

#[test]
fn ley_set_se_lee_en_valores_concretos() {
    let mut log = comando_set(s("a"), s("1"));
    log.push_str(&comando_set(s("b b"), s("dos \"2\"")));
    log.push_str(&comando_unset(s("a")));
    log.push_str(&comando_set(s("c"), s("3")));
    let dic = reconstruir_estado(&contenido("a 0\nz 9\n"), &contenido(&log)).unwrap();
    assert_eq!(dic.obtener("a"), None);
    assert_eq!(dic.obtener("b b"), Some(s("dos \"2\"")));
    assert_eq!(dic.obtener("c"), Some(s("3")));
    assert_eq!(dic.obtener("z"), Some(s("9")));
    assert_eq!(dic.cantidad(), 3);
}

#[test]
fn ley_set_falla_con_valor_vacio() {
    let log = comando_set(s("a"), s(""));
    let r = comando_get(s("a"), &ArchivoLeido::Ausente, &contenido(&log));
    assert_eq!(r, Err(ErrorMiniKv::NotFound));
}

#[test]
fn ley_snapshot_conserva_en_valores_concretos() {
    let mut log = comando_set(s("uno"), s("1"));
    log.push_str(&comando_set(s("dos dos"), s("\"2\"")));
    log.push_str(&comando_set(s("tres"), s("3")));
    log.push_str(&comando_unset(s("uno")));
    let antes = reconstruir_estado(&contenido("cero 0\n"), &contenido(&log)).unwrap();
    let data = comando_snapshot(&contenido("cero 0\n"), &contenido(&log)).unwrap();
    let despues = reconstruir_estado(&contenido(&data), &contenido("")).unwrap();
    assert_eq!(despues.cantidad(), antes.cantidad());
    for k in ["cero", "dos dos", "tres", "uno"] {
        assert_eq!(despues.obtener(k), antes.obtener(k));
    }
    assert_eq!(contenido_de(&antes), data);
}

#[test]
fn snapshot_no_conserva_barras() {
    let data = comando_snapshot(&contenido("k a\\\\b\n"), &ArchivoLeido::Ausente).unwrap();
    let despues = reconstruir_estado(&contenido(&data), &ArchivoLeido::Ausente).unwrap();
    assert_eq!(despues.obtener("k"), Some(s("ab")));
}

#[test]
fn ley_snapshot_sin_vaciar_log_en_valores_concretos() {
    let data = "a 1\nb 2\n";
    let mut log = comando_set(s("a"), s("10"));
    log.push_str(&comando_unset(s("b")));
    log.push_str(&comando_set(s("c"), s("3")));
    log.push_str(&comando_unset(s("c")));
    let antes = reconstruir_estado(&contenido(data), &contenido(&log)).unwrap();
    let nuevo = comando_snapshot(&contenido(data), &contenido(&log)).unwrap();
    let despues = reconstruir_estado(&contenido(&nuevo), &contenido(&log)).unwrap();
    assert_eq!(despues.cantidad(), antes.cantidad());
    for k in ["a", "b", "c"] {
        assert_eq!(despues.obtener(k), antes.obtener(k));
    }
    assert_eq!(despues.obtener("a"), Some(s("10")));
}

#[test]
fn ley_log_vacio_igual_a_ausente() {
    let con_vacio = comando_length(&contenido("a 1\n"), &contenido("")).unwrap();
    let sin_log = comando_length(&contenido("a 1\n"), &ArchivoLeido::Ausente).unwrap();
    assert_eq!(con_vacio, sin_log);
}
