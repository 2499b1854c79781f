use lib::errores::{
    clasificar_error, obtener_mensaje, obtener_mensaje_de_error_cliente, obtener_mensaje_de_error_comunicacion,
    obtener_mensaje_de_error_servidor_conexion, obtener_mensaje_de_error_servidor_datos, ErrorCliente,
    ErrorComunicacion, ErrorMiniKv, ErrorServidorConexion, ErrorServidorDatos,
};

#[test]
fn mensajes_de_error_minikv() {
    assert_eq!(obtener_mensaje(ErrorMiniKv::NotFound), "ERROR: NOT FOUND");
    assert_eq!(obtener_mensaje(ErrorMiniKv::ExtraArgument), "ERROR: EXTRA ARGUMENT");
    assert_eq!(obtener_mensaje(ErrorMiniKv::InvalidDataFile), "ERROR: INVALID DATA FILE");
    assert_eq!(obtener_mensaje(ErrorMiniKv::InvalidLogFile), "ERROR: INVALID LOG FILE");
    assert_eq!(obtener_mensaje(ErrorMiniKv::MissingArgument), "ERROR: MISSING ARGUMENT");
    assert_eq!(obtener_mensaje(ErrorMiniKv::UnknownCommand), "ERROR: UNKNOWN COMMAND");
}

#[test]
fn mensajes_de_error_del_servidor() {
    assert_eq!(obtener_mensaje_de_error_cliente(ErrorCliente::NotFound), "ERROR: NOT FOUND");
    assert_eq!(obtener_mensaje_de_error_cliente(ErrorCliente::ExtraArgument), "ERROR: EXTRA ARGUMENT");
    assert_eq!(obtener_mensaje_de_error_cliente(ErrorCliente::MissingArgument), "ERROR: MISSING ARGUMENT");
    assert_eq!(obtener_mensaje_de_error_cliente(ErrorCliente::UnknownCommand), "ERROR: UNKNOWN COMMAND");
    assert_eq!(obtener_mensaje_de_error_comunicacion(ErrorComunicacion::Timeout), "ERROR: TIMEOUT");
    assert_eq!(
        obtener_mensaje_de_error_comunicacion(ErrorComunicacion::ConnectionClosed),
        "ERROR: CONNECTION CLOSED"
    );
    assert_eq!(
        obtener_mensaje_de_error_comunicacion(ErrorComunicacion::ClientSocketBinding),
        "ERROR: CLIENT SOCKET BINDING"
    );
    assert_eq!(
        obtener_mensaje_de_error_servidor_datos(ErrorServidorDatos::InvalidDataFile),
        "ERROR: INVALID DATA FILE"
    );
    assert_eq!(
        obtener_mensaje_de_error_servidor_datos(ErrorServidorDatos::InvalidLogFile),
        "ERROR: INVALID LOG FILE"
    );
    assert_eq!(obtener_mensaje_de_error_servidor_conexion(ErrorServidorConexion::InvalidArgs), "ERROR: INVALID ARGS");
    assert_eq!(
        obtener_mensaje_de_error_servidor_conexion(ErrorServidorConexion::ServerSocketBinding),
        "ERROR: SERVER SOCKET BINDING"
    );
}

#[test]
fn clasificar_errores() {
    assert_eq!(clasificar_error(ErrorMiniKv::NotFound), Ok(ErrorCliente::NotFound));
    assert_eq!(clasificar_error(ErrorMiniKv::UnknownCommand), Ok(ErrorCliente::UnknownCommand));
    assert_eq!(clasificar_error(ErrorMiniKv::InvalidLogFile), Err(ErrorServidorDatos::InvalidLogFile));
    assert_eq!(clasificar_error(ErrorMiniKv::InvalidDataFile), Err(ErrorServidorDatos::InvalidDataFile));
}
