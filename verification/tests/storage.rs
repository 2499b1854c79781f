use lib::errores::ErrorMiniKv;
use lib::storage::{reconstruir_estado, separar_lineas, validar_linea_data, validar_linea_log, ArchivoLeido};

fn contenido(t: &str) -> ArchivoLeido {
    ArchivoLeido::Contenido(t.to_string())
}

#[test]
fn storage_test_19_validar_linea_log_valida_con_valor() {
    let resultado = validar_linea_log("set clave valor");
    assert!(resultado.is_ok());
}

#[test]
fn storage_test_20_validar_linea_log_valida_unset() {
    let resultado = validar_linea_log("set clave");
    assert!(resultado.is_ok());
}

#[test]
fn storage_test_21_validar_linea_log_comando_invalido() {
    let resultado = validar_linea_log("get clave valor");
    assert!(resultado.is_err());
}

#[test]
fn storage_test_22_validar_linea_log_argumentos_invalidos() {
    let resultado = validar_linea_log("set");
    assert!(resultado.is_err());
}

#[test]
fn storage_test_23_validar_linea_data_valida() {
    let resultado = validar_linea_data("clave valor");
    assert!(resultado.is_ok());
}

#[test]
fn storage_test_24_validar_linea_data_muchos_argumentos() {
    let resultado = validar_linea_data("clave valor extra");
    assert!(resultado.is_err());
}

#[test]
fn storage_test_25_validar_linea_data_pocos_argumentos() {
    let resultado = validar_linea_data("clave");
    assert!(resultado.is_err());
}

#[test]
fn validar_lineas_dan_el_error_de_su_archivo() {
    assert_eq!(validar_linea_log("get clave"), Err(ErrorMiniKv::InvalidLogFile));
    assert_eq!(validar_linea_log("set a b c"), Err(ErrorMiniKv::InvalidLogFile));
    assert_eq!(validar_linea_data("a b c"), Err(ErrorMiniKv::InvalidDataFile));
    assert_eq!(validar_linea_data(""), Err(ErrorMiniKv::InvalidDataFile));
}

#[test]
fn storage_test_09_reconstruir_estado_solo_data() {
    let dic = reconstruir_estado(&contenido("clave1 valor1\nclave2 valor2\n"), &ArchivoLeido::Ausente).unwrap();
    assert_eq!(dic.obtener("clave1"), Some("valor1".to_string()));
    assert_eq!(dic.obtener("clave2"), Some("valor2".to_string()));
}

#[test]
fn storage_test_10_reconstruir_estado_log_sobrescribe_data() {
    let dic = reconstruir_estado(&contenido("clave1 valor1\n"), &contenido("set clave1 valor2\n")).unwrap();
    assert_eq!(dic.obtener("clave1"), Some("valor2".to_string()));
}

#[test]
fn storage_test_11_reconstruir_estado_unset() {
    let dic = reconstruir_estado(&contenido("clave1 valor1\n"), &contenido("set clave1\n")).unwrap();
    assert_eq!(dic.obtener("clave1"), None);
}

#[test]
fn storage_test_12_reconstruir_estado_solo_log() {
    let dic = reconstruir_estado(&ArchivoLeido::Ausente, &contenido("set clave1 valor1\nset clave2 valor2\n")).unwrap();
    assert_eq!(dic.obtener("clave1"), Some("valor1".to_string()));
    assert_eq!(dic.obtener("clave2"), Some("valor2".to_string()));
}

#[test]
fn storage_test_13_reconstruir_estado_sin_archivos() {
    let dic = reconstruir_estado(&ArchivoLeido::Ausente, &ArchivoLeido::Ausente).unwrap();
    assert_eq!(dic.cantidad(), 0);
}

#[test]
fn storage_test_14_reconstruir_estado_linea_invalida() {
    let resultado = reconstruir_estado(&contenido("esta es una linea invalida\n"), &ArchivoLeido::Ausente);
    assert!(resultado.is_err());
}

#[test]
fn storage_test_17_cargar_log_en_memoria_la_clave_2_fue_actualizada_y_la_clave_1_fue_eliminada() {
    let dic = reconstruir_estado(
        &ArchivoLeido::Ausente,
        &contenido("set clave1 valor1\nset clave2 valor2\nset clave1 valor3\nset clave2\n"),
    )
    .unwrap();
    assert_eq!(dic.obtener("clave1"), Some("valor3".to_string()));
    assert_eq!(dic.obtener("clave2"), None);
}

#[test]
fn storage_test_18_cargar_log_en_memoria_linea_invalida() {
    let resultado = reconstruir_estado(&ArchivoLeido::Ausente, &contenido("comando invalido\n"));
    assert!(resultado.is_err());
}

#[test]
fn reconstruir_estado_errores_de_cada_archivo() {
    let r = reconstruir_estado(&contenido("a b c\n"), &ArchivoLeido::Ausente);
    assert_eq!(r.err(), Some(ErrorMiniKv::InvalidDataFile));
    let r = reconstruir_estado(&ArchivoLeido::Ausente, &contenido("get a\n"));
    assert_eq!(r.err(), Some(ErrorMiniKv::InvalidLogFile));
    let r = reconstruir_estado(&ArchivoLeido::NoSePuedeAbrir, &ArchivoLeido::Ausente);
    assert_eq!(r.err(), Some(ErrorMiniKv::InvalidDataFile));
    let r = reconstruir_estado(&ArchivoLeido::NoSePuedeLeer, &ArchivoLeido::Ausente);
    assert_eq!(r.err(), Some(ErrorMiniKv::InvalidDataFile));
    let r = reconstruir_estado(&ArchivoLeido::Ausente, &ArchivoLeido::NoSePuedeAbrir);
    assert_eq!(r.err(), Some(ErrorMiniKv::InvalidLogFile));
    let r = reconstruir_estado(&contenido("a 1\n"), &ArchivoLeido::NoSePuedeAbrir);
    assert_eq!(r.err(), Some(ErrorMiniKv::InvalidLogFile));
    let r = reconstruir_estado(&ArchivoLeido::Ausente, &ArchivoLeido::NoSePuedeLeer);
    assert_eq!(r.err(), Some(ErrorMiniKv::InvalidLogFile));
}

#[test]
fn reconstruir_estado_primer_error_del_data_gana() {
    let r = reconstruir_estado(&contenido("a\n"), &contenido("get a\n"));
    assert_eq!(r.err(), Some(ErrorMiniKv::InvalidDataFile));
}

#[test]
fn reconstruir_estado_data_repetida_gana_la_ultima() {
    let dic = reconstruir_estado(&contenido("k 1\nk 2\n"), &ArchivoLeido::Ausente).unwrap();
    assert_eq!(dic.obtener("k"), Some("2".to_string()));
    assert_eq!(dic.cantidad(), 1);
}

#[test]
fn reconstruir_estado_unset_de_clave_inexistente_no_falla() {
    let dic = reconstruir_estado(&ArchivoLeido::Ausente, &contenido("set nada\n")).unwrap();
    assert_eq!(dic.cantidad(), 0);
}

#[test]
fn reconstruir_estado_lineas_crlf_y_sin_salto_final() {
    let dic = reconstruir_estado(&contenido("a 1\r\nb 2"), &contenido("set c 3")).unwrap();
    assert_eq!(dic.obtener("a"), Some("1".to_string()));
    assert_eq!(dic.obtener("b"), Some("2".to_string()));
    assert_eq!(dic.obtener("c"), Some("3".to_string()));
}

#[test]
fn reconstruir_estado_linea_vacia_es_invalida() {
    let r = reconstruir_estado(&contenido("a 1\n\nb 2\n"), &ArchivoLeido::Ausente);
    assert_eq!(r.err(), Some(ErrorMiniKv::InvalidDataFile));
}

#[test]
fn separar_lineas_como_lectura_por_lineas() {
    assert_eq!(separar_lineas("a\nb\r\nc"), vec!["a", "b", "c"]);
    assert_eq!(separar_lineas("a\n\n"), vec!["a", ""]);
    assert_eq!(separar_lineas(""), Vec::<String>::new());
    assert_eq!(separar_lineas("x\r"), vec!["x\r"]);
    assert_eq!(separar_lineas("x\r\r\n"), vec!["x\r"]);
}
