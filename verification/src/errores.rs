use vstd::prelude::*;

verus! {

/// Errors of the MiniKV system; each one is shown to the user as `ERROR: [KIND]`.
#[derive(Debug, PartialEq, Eq, Structural, Clone, Copy)]
pub enum ErrorMiniKv {
    /// The requested key does not exist.
    NotFound,
    /// More arguments than expected were given.
    ExtraArgument,
    /// The data file is invalid or could not be processed.
    InvalidDataFile,
    /// The log file is invalid or could not be processed.
    InvalidLogFile,
    /// A required argument is missing.
    MissingArgument,
    /// The command is not recognised.
    UnknownCommand,
}

/// The text shown to the user for each error.
pub open spec fn mensaje_de(e: ErrorMiniKv) -> Seq<char> {
    match e {
        ErrorMiniKv::NotFound => "ERROR: NOT FOUND"@,
        ErrorMiniKv::ExtraArgument => "ERROR: EXTRA ARGUMENT"@,
        ErrorMiniKv::InvalidDataFile => "ERROR: INVALID DATA FILE"@,
        ErrorMiniKv::InvalidLogFile => "ERROR: INVALID LOG FILE"@,
        ErrorMiniKv::MissingArgument => "ERROR: MISSING ARGUMENT"@,
        ErrorMiniKv::UnknownCommand => "ERROR: UNKNOWN COMMAND"@,
    }
}

/// Returns the message of an error in the `ERROR: [KIND]` format.
pub fn obtener_mensaje(e: ErrorMiniKv) -> (m: &'static str)
    ensures
        m@ == mensaje_de(e),
{
    match e {
        ErrorMiniKv::NotFound => "ERROR: NOT FOUND",
        ErrorMiniKv::ExtraArgument => "ERROR: EXTRA ARGUMENT",
        ErrorMiniKv::InvalidDataFile => "ERROR: INVALID DATA FILE",
        ErrorMiniKv::InvalidLogFile => "ERROR: INVALID LOG FILE",
        ErrorMiniKv::MissingArgument => "ERROR: MISSING ARGUMENT",
        ErrorMiniKv::UnknownCommand => "ERROR: UNKNOWN COMMAND",
    }
}

/// Errors caused by what a client asked for.
#[derive(Debug, PartialEq, Eq, Structural, Clone, Copy)]
pub enum ErrorCliente {
    /// The requested key does not exist.
    NotFound,
    /// More arguments than expected were given.
    ExtraArgument,
    /// A required argument is missing.
    MissingArgument,
    /// The command is not recognised.
    UnknownCommand,
}

/// Errors of the server's data files.
#[derive(Debug, PartialEq, Eq, Structural, Clone, Copy)]
pub enum ErrorServidorDatos {
    /// The data file is invalid or could not be processed.
    InvalidDataFile,
    /// The log file is invalid or could not be processed.
    InvalidLogFile,
}

/// Errors while starting the server.
#[derive(Debug, PartialEq, Eq, Structural, Clone, Copy)]
pub enum ErrorServidorConexion {
    /// The server was not started with the expected arguments.
    InvalidArgs,
    /// The server could not bind a socket at the given address.
    ServerSocketBinding,
}

/// Errors of the communication between client and server.
#[derive(Debug, PartialEq, Eq, Structural, Clone, Copy)]
pub enum ErrorComunicacion {
    /// The peer took too long to answer.
    Timeout,
    /// The connection was closed unexpectedly.
    ConnectionClosed,
    /// The client could not connect to the server's address.
    ClientSocketBinding,
}

pub open spec fn mensaje_de_error_cliente(e: ErrorCliente) -> Seq<char> {
    match e {
        ErrorCliente::NotFound => "ERROR: NOT FOUND"@,
        ErrorCliente::ExtraArgument => "ERROR: EXTRA ARGUMENT"@,
        ErrorCliente::MissingArgument => "ERROR: MISSING ARGUMENT"@,
        ErrorCliente::UnknownCommand => "ERROR: UNKNOWN COMMAND"@,
    }
}

pub open spec fn mensaje_de_error_comunicacion(e: ErrorComunicacion) -> Seq<char> {
    match e {
        ErrorComunicacion::Timeout => "ERROR: TIMEOUT"@,
        ErrorComunicacion::ConnectionClosed => "ERROR: CONNECTION CLOSED"@,
        ErrorComunicacion::ClientSocketBinding => "ERROR: CLIENT SOCKET BINDING"@,
    }
}

pub open spec fn mensaje_de_error_servidor_datos(e: ErrorServidorDatos) -> Seq<char> {
    match e {
        ErrorServidorDatos::InvalidDataFile => "ERROR: INVALID DATA FILE"@,
        ErrorServidorDatos::InvalidLogFile => "ERROR: INVALID LOG FILE"@,
    }
}

pub open spec fn mensaje_de_error_servidor_conexion(e: ErrorServidorConexion) -> Seq<char> {
    match e {
        ErrorServidorConexion::InvalidArgs => "ERROR: INVALID ARGS"@,
        ErrorServidorConexion::ServerSocketBinding => "ERROR: SERVER SOCKET BINDING"@,
    }
}

/// Returns the message of a client error in the `ERROR: [KIND]` format.
pub fn obtener_mensaje_de_error_cliente(e: ErrorCliente) -> (m: &'static str)
    ensures
        m@ == mensaje_de_error_cliente(e),
{
    match e {
        ErrorCliente::NotFound => "ERROR: NOT FOUND",
        ErrorCliente::ExtraArgument => "ERROR: EXTRA ARGUMENT",
        ErrorCliente::MissingArgument => "ERROR: MISSING ARGUMENT",
        ErrorCliente::UnknownCommand => "ERROR: UNKNOWN COMMAND",
    }
}

/// Returns the message of a communication error in the `ERROR: [KIND]` format.
pub fn obtener_mensaje_de_error_comunicacion(e: ErrorComunicacion) -> (m: &'static str)
    ensures
        m@ == mensaje_de_error_comunicacion(e),
{
    match e {
        ErrorComunicacion::Timeout => "ERROR: TIMEOUT",
        ErrorComunicacion::ConnectionClosed => "ERROR: CONNECTION CLOSED",
        ErrorComunicacion::ClientSocketBinding => "ERROR: CLIENT SOCKET BINDING",
    }
}

/// Returns the message of a data-file error in the `ERROR: [KIND]` format.
pub fn obtener_mensaje_de_error_servidor_datos(e: ErrorServidorDatos) -> (m: &'static str)
    ensures
        m@ == mensaje_de_error_servidor_datos(e),
{
    match e {
        ErrorServidorDatos::InvalidDataFile => "ERROR: INVALID DATA FILE",
        ErrorServidorDatos::InvalidLogFile => "ERROR: INVALID LOG FILE",
    }
}

/// Returns the message of a server start-up error in the `ERROR: [KIND]` format.
pub fn obtener_mensaje_de_error_servidor_conexion(e: ErrorServidorConexion) -> (m: &'static str)
    ensures
        m@ == mensaje_de_error_servidor_conexion(e),
{
    match e {
        ErrorServidorConexion::InvalidArgs => "ERROR: INVALID ARGS",
        ErrorServidorConexion::ServerSocketBinding => "ERROR: SERVER SOCKET BINDING",
    }
}

/// The client error that a system error stands for, where there is one.
pub open spec fn como_error_cliente(e: ErrorMiniKv) -> Option<ErrorCliente> {
    match e {
        ErrorMiniKv::NotFound => Some(ErrorCliente::NotFound),
        ErrorMiniKv::ExtraArgument => Some(ErrorCliente::ExtraArgument),
        ErrorMiniKv::MissingArgument => Some(ErrorCliente::MissingArgument),
        ErrorMiniKv::UnknownCommand => Some(ErrorCliente::UnknownCommand),
        _ => None,
    }
}

/// The data-file error that a system error stands for, where there is one.
pub open spec fn como_error_servidor_datos(e: ErrorMiniKv) -> Option<ErrorServidorDatos> {
    match e {
        ErrorMiniKv::InvalidDataFile => Some(ErrorServidorDatos::InvalidDataFile),
        ErrorMiniKv::InvalidLogFile => Some(ErrorServidorDatos::InvalidLogFile),
        _ => None,
    }
}

/// Sorts a system error into the client error or the data-file error it stands for.
pub fn clasificar_error(e: ErrorMiniKv) -> (r: Result<ErrorCliente, ErrorServidorDatos>)
    ensures
        como_error_cliente(e) matches Some(c) ==> r == Ok::<ErrorCliente, ErrorServidorDatos>(c),
        como_error_servidor_datos(e) matches Some(d) ==> r == Err::<ErrorCliente, ErrorServidorDatos>(d),
{
    match e {
        ErrorMiniKv::NotFound => Ok(ErrorCliente::NotFound),
        ErrorMiniKv::ExtraArgument => Ok(ErrorCliente::ExtraArgument),
        ErrorMiniKv::MissingArgument => Ok(ErrorCliente::MissingArgument),
        ErrorMiniKv::UnknownCommand => Ok(ErrorCliente::UnknownCommand),
        ErrorMiniKv::InvalidDataFile => Err(ErrorServidorDatos::InvalidDataFile),
        ErrorMiniKv::InvalidLogFile => Err(ErrorServidorDatos::InvalidLogFile),
    }
}

} // verus!
