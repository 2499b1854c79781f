use vstd::prelude::*;
use crate::comandos::{Comando, ComandoVista, comando_de_palabras, comando_desde_argumentos, comando_set, comando_unset, linea_set, linea_unset};
use crate::diccionario::Diccionario;
use crate::errores::{
    ErrorCliente, ErrorMiniKv, ErrorServidorDatos, como_error_cliente, mensaje_de_error_cliente,
    mensaje_de_error_servidor_datos, obtener_mensaje_de_error_cliente, obtener_mensaje_de_error_servidor_datos,
};
use crate::parser::{argumentos, separar_argumentos};
use crate::storage::Mapa;
use crate::texto::{agregar_caracter, agregar_texto};

verus! {

/// The answer that the server sends back for one request.
pub enum Respuesta {
    /// The operation was done.
    Hecho,
    /// The value that was asked for.
    Valor(String),
    /// The number of stored keys.
    Cantidad(usize),
    /// The request could not be served.
    ErrorCliente(ErrorCliente),
    /// The server's files could not be used.
    ErrorServidor(ErrorServidorDatos),
}

#[verifier::external_type_specification]
#[verifier::external_body]
#[verifier::reject_recursive_types(T)]
pub struct ExSender<T>(std::sync::mpsc::Sender<T>);

/// A request for the thread that owns the store: the operation, and where to send its answer.
pub struct Peticion {
    pub comando: Comando,
    pub tx_respuesta: std::sync::mpsc::Sender<Respuesta>,
}

/// The decimal digits.
pub open spec fn digitos() -> Seq<char> {
    seq!['0', '1', '2', '3', '4', '5', '6', '7', '8', '9']
}

/// The decimal writing of a number, without leading zeros.
pub open spec fn decimal(n: nat) -> Seq<char>
    decreases n,
{
    if n < 10 {
        seq![digitos()[n as int]]
    } else {
        decimal(n / 10).push(digitos()[(n % 10) as int])
    }
}

fn digito(d: usize) -> (c: char)
    requires
        d < 10,
    ensures
        c == digitos()[d as int],
{
    match d {
        0 => '0',
        1 => '1',
        2 => '2',
        3 => '3',
        4 => '4',
        5 => '5',
        6 => '6',
        7 => '7',
        8 => '8',
        _ => '9',
    }
}

/// Writes a number in decimal.
pub fn texto_decimal(n: usize) -> (r: String)
    ensures
        r@ == decimal(n as nat),
    decreases n,
{
    if n < 10 {
        let mut r = String::new();
        agregar_caracter(&mut r, digito(n));
        r
    } else {
        let mut r = texto_decimal(n / 10);
        agregar_caracter(&mut r, digito(n % 10));
        r
    }
}

/// The text sent to the client for a response, ended by a line break.
pub open spec fn texto_de_respuesta(r: Respuesta) -> Seq<char> {
    match r {
        Respuesta::Hecho => seq!['O', 'K', '\n'],
        Respuesta::Valor(v) => v@.push('\n'),
        Respuesta::Cantidad(n) => decimal(n as nat).push('\n'),
        Respuesta::ErrorCliente(e) => mensaje_de_error_cliente(e).push('\n'),
        Respuesta::ErrorServidor(e) => mensaje_de_error_servidor_datos(e).push('\n'),
    }
}

/// Formats a response as the line that is sent to the client.
pub fn mensaje_de_respuesta(respuesta: &Respuesta) -> (r: String)
    ensures
        r@ == texto_de_respuesta(*respuesta),
{
    let mut r = String::new();
    match respuesta {
        Respuesta::Hecho => {
            proof {
                reveal_strlit("OK");
                assert("OK"@ =~= seq!['O', 'K']);
            }
            agregar_texto(&mut r, "OK");
        },
        Respuesta::Valor(valor) => {
            agregar_texto(&mut r, valor.as_str());
        },
        Respuesta::Cantidad(cantidad) => {
            let t = texto_decimal(*cantidad);
            agregar_texto(&mut r, t.as_str());
        },
        Respuesta::ErrorCliente(e) => {
            agregar_texto(&mut r, obtener_mensaje_de_error_cliente(*e));
        },
        Respuesta::ErrorServidor(e) => {
            agregar_texto(&mut r, obtener_mensaje_de_error_servidor_datos(*e));
        },
    }
    agregar_caracter(&mut r, '\n');
    r
}

/// Whether a character has the Unicode `White_Space` property: the controls
/// U+0009 to U+000D, the space, U+0085, U+00A0, U+1680, U+2000 to U+200A,
/// U+2028, U+2029, U+202F, U+205F and U+3000.
pub open spec fn espacio_en_blanco(c: char) -> bool {
    let n = c as u32;
    ||| 0x9 <= n <= 0xD
    ||| n == 0x20
    ||| n == 0x85
    ||| n == 0xA0
    ||| n == 0x1680
    ||| 0x2000 <= n <= 0x200A
    ||| n == 0x2028
    ||| n == 0x2029
    ||| n == 0x202F
    ||| n == 0x205F
    ||| n == 0x3000
}

/// Tells whether a character is white space.
///
/// Trusted: `char::is_whitespace`, which std documents as returning `true`
/// exactly for the characters with the Unicode `White_Space` property,
/// listed in `espacio_en_blanco`.
#[verifier::external_body]
fn es_espacio_en_blanco(c: char) -> (r: bool)
    ensures
        r == espacio_en_blanco(c),
{
    c.is_whitespace()
}

/// A text without the white space at its start.
pub open spec fn sin_blancos_al_inicio(s: Seq<char>) -> Seq<char>
    decreases s.len(),
{
    if s.len() > 0 && espacio_en_blanco(s[0]) {
        sin_blancos_al_inicio(s.drop_first())
    } else {
        s
    }
}

/// A text without the white space at its end.
pub open spec fn sin_blancos_al_final(s: Seq<char>) -> Seq<char>
    decreases s.len(),
{
    if s.len() > 0 && espacio_en_blanco(s.last()) {
        sin_blancos_al_final(s.drop_last())
    } else {
        s
    }
}

/// A text without white space at either end.
pub open spec fn recortado(s: Seq<char>) -> Seq<char> {
    sin_blancos_al_final(sin_blancos_al_inicio(s))
}

/// Removes the white space at both ends of a text.
pub fn recortar(texto: &str) -> (r: String)
    ensures
        r@ == recortado(texto@),
{
    let mut cs: Vec<char> = Vec::new();
    let ghost s = texto@;
    for c in it: texto.chars()
        invariant
            it.seq() == s,
            cs@ == s.take(it.index()),
    {
        cs.push(c);
        assert(cs@ == s.take(it.index() + 1));
    }
    assert(s.take(s.len() as int) == s);
    let n = cs.len();
    let mut i: usize = 0;
    while i < n && es_espacio_en_blanco(cs[i])
        invariant
            cs@ == s,
            n == s.len(),
            i <= n,
            sin_blancos_al_inicio(s) == sin_blancos_al_inicio(s.subrange(i as int, n as int)),
        decreases n - i,
    {
        assert(s.subrange(i as int, n as int).drop_first() == s.subrange(i + 1, n as int));
        i = i + 1;
    }
    assert(sin_blancos_al_inicio(s.subrange(i as int, n as int)) == s.subrange(i as int, n as int));
    let mut j: usize = n;
    while j > i && es_espacio_en_blanco(cs[j - 1])
        invariant
            cs@ == s,
            n == s.len(),
            i <= j <= n,
            recortado(s) == sin_blancos_al_final(s.subrange(i as int, j as int)),
        decreases j - i,
    {
        assert(s.subrange(i as int, j as int).drop_last() == s.subrange(i as int, j - 1));
        j = j - 1;
    }
    assert(sin_blancos_al_final(s.subrange(i as int, j as int)) == s.subrange(i as int, j as int));
    let mut r = String::new();
    let mut k: usize = i;
    while k < j
        invariant
            cs@ == s,
            i <= k <= j <= n,
            n == s.len(),
            r@ == s.subrange(i as int, k as int),
        decreases j - k,
    {
        agregar_caracter(&mut r, cs[k]);
        assert(r@ == s.subrange(i as int, k + 1));
        k = k + 1;
    }
    r
}

/// What a line received from a client asks for: nothing for a blank line,
/// otherwise the operation that its words make, or the client error to answer.
pub open spec fn peticion_de_linea(linea: Seq<char>) -> Option<Result<ComandoVista, ErrorCliente>> {
    let t = recortado(linea);
    if t.len() == 0 {
        None
    } else {
        match comando_de_palabras(argumentos(t)) {
            Ok(c) => Some(Ok(c)),
            Err(e) => Some(Err(como_error_cliente(e).unwrap())),
        }
    }
}

/// Reads one line received from a client: blank lines are skipped, other lines
/// are split into words that make an operation or a client error.
pub fn interpretar_linea(linea: &str) -> (r: Option<Result<Comando, ErrorCliente>>)
    ensures
        peticion_de_linea(linea@) == match r {
            None => None,
            Some(Ok(c)) => Some(Ok::<ComandoVista, ErrorCliente>(c@)),
            Some(Err(e)) => Some(Err::<ComandoVista, ErrorCliente>(e)),
        },
{
    let recortada = recortar(linea);
    if recortada.as_str().is_empty() {
        return None;
    }
    let args = separar_argumentos(recortada.as_str());
    match comando_desde_argumentos(&args) {
        Ok(c) => Some(Ok(c)),
        Err(e) => {
            let ec = match e {
                ErrorMiniKv::NotFound => ErrorCliente::NotFound,
                ErrorMiniKv::ExtraArgument => ErrorCliente::ExtraArgument,
                ErrorMiniKv::MissingArgument => ErrorCliente::MissingArgument,
                _ => ErrorCliente::UnknownCommand,
            };
            Some(Err(ec))
        },
    }
}

/// What the thread that owns the store must do for a request.
pub enum Accion {
    /// Send this response to the client.
    Responder(Respuesta),
    /// Append this line to the log, then answer `OK`; if the append fails the server stops.
    Registrar(String),
    /// Compact the files (rewrite the data file, empty the log), then answer `OK`;
    /// if that fails the server stops.
    Compactar,
}

/// What an operation does to the store's contents.
pub open spec fn efecto_en_memoria(m: Mapa, c: ComandoVista) -> Mapa {
    match c {
        ComandoVista::Asignar(k, v) => m.insert(k, v),
        ComandoVista::Unset(k) => m.remove(k),
        _ => m,
    }
}

/// The line that an operation appends to the log, if it appends one.
pub open spec fn linea_de_registro(c: ComandoVista) -> Option<Seq<char>> {
    match c {
        ComandoVista::Asignar(k, v) => Some(linea_set(k, v)),
        ComandoVista::Unset(k) => Some(linea_unset(k)),
        _ => None,
    }
}

/// What a response means.
pub enum RespuestaVista {
    Hecho,
    Valor(Seq<char>),
    Cantidad(nat),
    ErrorCliente(ErrorCliente),
    ErrorServidor(ErrorServidorDatos),
}

impl View for Respuesta {
    type V = RespuestaVista;

    open spec fn view(&self) -> RespuestaVista {
        match self {
            Respuesta::Hecho => RespuestaVista::Hecho,
            Respuesta::Valor(v) => RespuestaVista::Valor(v@),
            Respuesta::Cantidad(n) => RespuestaVista::Cantidad(*n as nat),
            Respuesta::ErrorCliente(e) => RespuestaVista::ErrorCliente(*e),
            Respuesta::ErrorServidor(e) => RespuestaVista::ErrorServidor(*e),
        }
    }
}

/// What an action means.
pub enum AccionVista {
    Responder(RespuestaVista),
    Registrar(Seq<char>),
    Compactar,
}

impl View for Accion {
    type V = AccionVista;

    open spec fn view(&self) -> AccionVista {
        match self {
            Accion::Responder(r) => AccionVista::Responder(r@),
            Accion::Registrar(l) => AccionVista::Registrar(l@),
            Accion::Compactar => AccionVista::Compactar,
        }
    }
}

/// What the server does for an operation when its store holds `m`: `set`
/// and its removal form are logged, `get` answers the value or `NOT FOUND`,
/// `length` answers the number of keys, `snapshot` compacts the files.
pub open spec fn salida_esperada(m: Mapa, c: ComandoVista) -> AccionVista {
    match c {
        ComandoVista::Asignar(k, v) => AccionVista::Registrar(linea_set(k, v)),
        ComandoVista::Unset(k) => AccionVista::Registrar(linea_unset(k)),
        ComandoVista::Get(k) => if m.contains_key(k) {
            AccionVista::Responder(RespuestaVista::Valor(m[k]))
        } else {
            AccionVista::Responder(RespuestaVista::ErrorCliente(ErrorCliente::NotFound))
        },
        ComandoVista::Length => AccionVista::Responder(RespuestaVista::Cantidad(m.dom().len())),
        ComandoVista::Snapshot => AccionVista::Compactar,
    }
}

/// Serves one operation on the in-memory store and says what is left to do
/// with the files and the client.
pub fn atender_comando(diccionario: &mut Diccionario, comando: Comando) -> (a: Accion)
    ensures
        final(diccionario)@ == efecto_en_memoria(old(diccionario)@, comando@),
        a@ == salida_esperada(old(diccionario)@, comando@),
{
    match comando {
        Comando::Asignar(clave, valor) => {
            let linea = comando_set(clave.clone(), valor.clone());
            diccionario.insertar(clave, valor);
            Accion::Registrar(linea)
        },
        Comando::Unset(clave) => {
            let linea = comando_unset(clave.clone());
            diccionario.quitar(clave.as_str());
            Accion::Registrar(linea)
        },
        Comando::Get(clave) => match diccionario.obtener(clave.as_str()) {
            Some(valor) => Accion::Responder(Respuesta::Valor(valor)),
            None => Accion::Responder(Respuesta::ErrorCliente(ErrorCliente::NotFound)),
        },
        Comando::Length => Accion::Responder(Respuesta::Cantidad(diccionario.cantidad())),
        Comando::Snapshot => Accion::Compactar,
    }
}

} // verus!
