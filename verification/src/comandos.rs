use vstd::prelude::*;
use crate::errores::ErrorMiniKv;
use crate::diccionario::{Diccionario, Par, mapa_de, claves_unicas};
use crate::errores::como_error_cliente;
use crate::parser::{serializado, serializar};
use crate::storage::{ArchivoLeido, estado_de};
use crate::texto::{agregar_caracter, agregar_texto, textos_iguales};

verus! {

/// The commands that MiniKV recognises.
#[derive(Debug, PartialEq, Eq, Structural, Clone, Copy)]
pub enum TipoComando {
    /// Sets a value for a key (or removes the key, without a value).
    Asignar,
    /// Gets the value of a key.
    Get,
    /// Counts the stored keys.
    Length,
    /// Compacts the state into the data file and empties the log.
    Snapshot,
}

pub open spec fn texto_set() -> Seq<char> {
    seq!['s', 'e', 't']
}

pub open spec fn texto_get() -> Seq<char> {
    seq!['g', 'e', 't']
}

pub open spec fn texto_length() -> Seq<char> {
    seq!['l', 'e', 'n', 'g', 't', 'h']
}

pub open spec fn texto_snapshot() -> Seq<char> {
    seq!['s', 'n', 'a', 'p', 's', 'h', 'o', 't']
}

/// The command that a word names, if it names one.
pub open spec fn tipo_de(s: Seq<char>) -> Option<TipoComando> {
    if s == texto_set() {
        Some(TipoComando::Asignar)
    } else if s == texto_get() {
        Some(TipoComando::Get)
    } else if s == texto_length() {
        Some(TipoComando::Length)
    } else if s == texto_snapshot() {
        Some(TipoComando::Snapshot)
    } else {
        None
    }
}

impl TipoComando {
    /// Reads a command name: `set`, `get`, `length` or `snapshot`.
    pub fn desde_texto(comando: &str) -> (r: Result<TipoComando, ErrorMiniKv>)
        ensures
            match tipo_de(comando@) {
                Some(t) => r == Ok::<TipoComando, ErrorMiniKv>(t),
                None => r == Err::<TipoComando, ErrorMiniKv>(ErrorMiniKv::UnknownCommand),
            },
    {
        proof {
            reveal_strlit("set");
            reveal_strlit("get");
            reveal_strlit("length");
            reveal_strlit("snapshot");
            assert("set"@ =~= texto_set());
            assert("get"@ =~= texto_get());
            assert("length"@ =~= texto_length());
            assert("snapshot"@ =~= texto_snapshot());
        }
        if textos_iguales(comando, "set") {
            Ok(TipoComando::Asignar)
        } else if textos_iguales(comando, "get") {
            Ok(TipoComando::Get)
        } else if textos_iguales(comando, "length") {
            Ok(TipoComando::Length)
        } else if textos_iguales(comando, "snapshot") {
            Ok(TipoComando::Snapshot)
        } else {
            Err(ErrorMiniKv::UnknownCommand)
        }
    }
}

impl std::str::FromStr for TipoComando {
    type Err = ErrorMiniKv;

    fn from_str(comando: &str) -> (r: Result<Self, Self::Err>)
        ensures
            match tipo_de(comando@) {
                Some(t) => r == Ok::<TipoComando, ErrorMiniKv>(t),
                None => r == Err::<TipoComando, ErrorMiniKv>(ErrorMiniKv::UnknownCommand),
            },
    {
        TipoComando::desde_texto(comando)
    }
}

/// A complete MiniKV operation, with its arguments.
#[derive(Debug, PartialEq, Eq)]
pub enum Comando {
    /// `set key value`: stores the value under the key.
    Asignar(String, String),
    /// `set key`: removes the key.
    Unset(String),
    /// `get key`: looks the key up.
    Get(String),
    /// `length`: counts the keys.
    Length,
    /// `snapshot`: compacts the state.
    Snapshot,
}

/// What an operation means: its kind and the texts of its arguments.
pub enum ComandoVista {
    Asignar(Seq<char>, Seq<char>),
    Unset(Seq<char>),
    Get(Seq<char>),
    Length,
    Snapshot,
}

impl View for Comando {
    type V = ComandoVista;

    open spec fn view(&self) -> ComandoVista {
        match self {
            Comando::Asignar(c, v) => ComandoVista::Asignar(c@, v@),
            Comando::Unset(c) => ComandoVista::Unset(c@),
            Comando::Get(c) => ComandoVista::Get(c@),
            Comando::Length => ComandoVista::Length,
            Comando::Snapshot => ComandoVista::Snapshot,
        }
    }
}

/// The text of an optional argument.
pub open spec fn vista_opcion(o: Option<String>) -> Option<Seq<char>> {
    match o {
        Some(s) => Some(s@),
        None => None,
    }
}

/// The operation, or the error, that a command name and up to three further
/// arguments make; the first matching rule wins: any argument beyond what the
/// command takes is `ExtraArgument`, a missing key is `MissingArgument`.
pub open spec fn comando_esperado(
    comando: TipoComando,
    clave: Option<Seq<char>>,
    valor: Option<Seq<char>>,
    extra: Option<Seq<char>>,
) -> Result<ComandoVista, ErrorMiniKv> {
    match (comando, clave, valor, extra) {
        (TipoComando::Asignar, Some(c), Some(v), None) => Ok(ComandoVista::Asignar(c, v)),
        (TipoComando::Asignar, Some(c), None, None) => Ok(ComandoVista::Unset(c)),
        (TipoComando::Get, Some(c), None, None) => Ok(ComandoVista::Get(c)),
        (TipoComando::Length, None, None, None) => Ok(ComandoVista::Length),
        (TipoComando::Snapshot, None, None, None) => Ok(ComandoVista::Snapshot),
        (TipoComando::Asignar, _, _, Some(_))
        | (TipoComando::Get, _, Some(_), _)
        | (TipoComando::Get, Some(_), None, Some(_))
        | (TipoComando::Length, _, _, _)
        | (TipoComando::Snapshot, _, _, _) => Err(ErrorMiniKv::ExtraArgument),
        (TipoComando::Asignar, None, _, _) | (TipoComando::Get, None, _, _) => Err(
            ErrorMiniKv::MissingArgument,
        ),
    }
}

/// An operation or error, as what it means.
pub open spec fn vista_resultado(r: Result<Comando, ErrorMiniKv>) -> Result<ComandoVista, ErrorMiniKv> {
    match r {
        Ok(c) => Ok(c@),
        Err(e) => Err(e),
    }
}

/// Builds a MiniKV operation from a command name and the arguments that follow it.
pub fn crear_comando(
    comando: TipoComando,
    clave: Option<String>,
    valor: Option<String>,
    extra: Option<String>,
) -> (r: Result<Comando, ErrorMiniKv>)
    ensures
        vista_resultado(r) == comando_esperado(
            comando,
            vista_opcion(clave),
            vista_opcion(valor),
            vista_opcion(extra),
        ),
{
    match (comando, clave, valor, extra) {
        (TipoComando::Asignar, Some(clave), Some(valor), None) => Ok(Comando::Asignar(clave, valor)),
        (TipoComando::Asignar, Some(clave), None, None) => Ok(Comando::Unset(clave)),
        (TipoComando::Get, Some(clave), None, None) => Ok(Comando::Get(clave)),
        (TipoComando::Length, None, None, None) => Ok(Comando::Length),
        (TipoComando::Snapshot, None, None, None) => Ok(Comando::Snapshot),
        (TipoComando::Asignar, _, _, Some(_))
        | (TipoComando::Get, _, Some(_), _)
        | (TipoComando::Get, Some(_), None, Some(_))
        | (TipoComando::Length, _, _, _)
        | (TipoComando::Snapshot, _, _, _) => Err(ErrorMiniKv::ExtraArgument),
        (TipoComando::Asignar, None, _, _) | (TipoComando::Get, None, _, _) => Err(
            ErrorMiniKv::MissingArgument,
        ),
    }
}

/// The word at position `i`, if there is one.
pub open spec fn palabra_en(ps: Seq<Seq<char>>, i: int) -> Option<Seq<char>> {
    if 0 <= i < ps.len() {
        Some(ps[i])
    } else {
        None
    }
}

/// The operation, or the error, that a list of words makes: the first names
/// the command, the next three are its arguments, and any further word is not read.
pub open spec fn comando_de_palabras(ps: Seq<Seq<char>>) -> Result<ComandoVista, ErrorMiniKv> {
    if ps.len() == 0 {
        Err(ErrorMiniKv::UnknownCommand)
    } else {
        match tipo_de(ps[0]) {
            None => Err(ErrorMiniKv::UnknownCommand),
            Some(t) => comando_esperado(t, palabra_en(ps, 1), palabra_en(ps, 2), palabra_en(ps, 3)),
        }
    }
}

/// The argument at position `i`, if there is one.
fn tomar_argumento(args: &Vec<String>, i: usize) -> (r: Option<String>)
    ensures
        vista_opcion(r) == palabra_en(args.deep_view(), i as int),
{
    if i < args.len() {
        Some(args[i].clone())
    } else {
        None
    }
}

/// Builds a MiniKV operation from the words of a request: a command name and its arguments.
pub fn comando_desde_argumentos(args: &Vec<String>) -> (r: Result<Comando, ErrorMiniKv>)
    ensures
        vista_resultado(r) == comando_de_palabras(args.deep_view()),
        r matches Err(e) ==> como_error_cliente(e) is Some,
{
    if args.len() == 0 {
        return Err(ErrorMiniKv::UnknownCommand);
    }
    let tipo = TipoComando::desde_texto(args[0].as_str())?;
    let clave = tomar_argumento(args, 1);
    let valor = tomar_argumento(args, 2);
    let extra = tomar_argumento(args, 3);
    crear_comando(tipo, clave, valor, extra)
}

/// The log line that records `set key value`.
pub open spec fn linea_set(clave: Seq<char>, valor: Seq<char>) -> Seq<char> {
    texto_set() + seq![' '] + serializado(clave) + seq![' '] + serializado(valor) + seq!['\n']
}

/// The log line that records the removal of a key.
pub open spec fn linea_unset(clave: Seq<char>) -> Seq<char> {
    texto_set() + seq![' '] + serializado(clave) + seq!['\n']
}

/// The line to append to the log for `set key value`: both texts are serialized.
pub fn comando_set(clave: String, valor: String) -> (linea: String)
    ensures
        linea@ == linea_set(clave@, valor@),
{
    let clave_log = serializar(clave.as_str());
    let valor_log = serializar(valor.as_str());
    let mut linea_log = String::new();
    proof {
        reveal_strlit("set ");
        assert("set "@ =~= texto_set() + seq![' ']);
    }
    agregar_texto(&mut linea_log, "set ");
    agregar_texto(&mut linea_log, clave_log.as_str());
    agregar_caracter(&mut linea_log, ' ');
    agregar_texto(&mut linea_log, valor_log.as_str());
    agregar_caracter(&mut linea_log, '\n');
    assert(linea_log@ =~= linea_set(clave@, valor@));
    linea_log
}

/// The line to append to the log to remove a key: `set` and the serialized key.
pub fn comando_unset(clave: String) -> (linea: String)
    ensures
        linea@ == linea_unset(clave@),
{
    let clave_log = serializar(clave.as_str());
    let mut linea_log = String::new();
    proof {
        reveal_strlit("set ");
        assert("set "@ =~= texto_set() + seq![' ']);
    }
    agregar_texto(&mut linea_log, "set ");
    agregar_texto(&mut linea_log, clave_log.as_str());
    agregar_caracter(&mut linea_log, '\n');
    assert(linea_log@ =~= linea_unset(clave@));
    linea_log
}

/// Looks a key up in the state rebuilt from the data file and the log.
pub fn comando_get(clave: String, data: &ArchivoLeido, log: &ArchivoLeido) -> (r: Result<
    String,
    ErrorMiniKv,
>)
    ensures
        match estado_de(*data, *log) {
            Ok(m) => if m.contains_key(clave@) {
                r is Ok && r->Ok_0@ == m[clave@]
            } else {
                r == Err::<String, ErrorMiniKv>(ErrorMiniKv::NotFound)
            },
            Err(e) => r == Err::<String, ErrorMiniKv>(e),
        },
{
    let diccionario = crate::storage::reconstruir_estado(data, log)?;
    match diccionario.obtener(clave.as_str()) {
        Some(valor) => Ok(valor),
        None => Err(ErrorMiniKv::NotFound),
    }
}

/// Counts the keys of the state rebuilt from the data file and the log.
pub fn comando_length(data: &ArchivoLeido, log: &ArchivoLeido) -> (r: Result<usize, ErrorMiniKv>)
    ensures
        match estado_de(*data, *log) {
            Ok(m) => r == Ok::<usize, ErrorMiniKv>(m.dom().len() as usize),
            Err(e) => r == Err::<usize, ErrorMiniKv>(e),
        },
{
    let diccionario = crate::storage::reconstruir_estado(data, log)?;
    Ok(diccionario.cantidad())
}

/// The data-file line of one pair: both texts serialized, a space between them.
pub open spec fn linea_data(p: Par) -> Seq<char> {
    serializado(p.0) + seq![' '] + serializado(p.1) + seq!['\n']
}

/// The data-file text that holds the pairs of `s`, one line each, in order.
pub open spec fn contenido_snapshot(s: Seq<Par>) -> Seq<char>
    decreases s.len(),
{
    if s.len() == 0 {
        Seq::empty()
    } else {
        contenido_snapshot(s.drop_last()) + linea_data(s.last())
    }
}

/// The text of the data file that holds the pairs of a dictionary.
pub fn contenido_de(diccionario: &Diccionario) -> (r: String)
    ensures
        r@ == contenido_snapshot(diccionario.entradas()),
        claves_unicas(diccionario.entradas()),
{
    let n = diccionario.cantidad();
    let mut contenido = String::new();
    let mut i: usize = 0;
    while i < n
        invariant
            n == diccionario.entradas().len(),
            i <= n,
            contenido@ == contenido_snapshot(diccionario.entradas().take(i as int)),
        decreases n - i,
    {
        let (clave, valor) = diccionario.entrada(i);
        let clave_serializada = serializar(clave.as_str());
        let valor_serializado = serializar(valor.as_str());
        let mut linea = String::new();
        agregar_texto(&mut linea, clave_serializada.as_str());
        agregar_caracter(&mut linea, ' ');
        agregar_texto(&mut linea, valor_serializado.as_str());
        agregar_caracter(&mut linea, '\n');
        agregar_texto(&mut contenido, linea.as_str());
        proof {
            let s = diccionario.entradas();
            assert(s.take(i + 1).drop_last() == s.take(i as int));
            assert(s.take(i + 1).last() == s[i as int]);
            assert(linea@ =~= linea_data(s[i as int]));
        }
        i = i + 1;
    }
    assert(diccionario.entradas().take(n as int) == diccionario.entradas());
    contenido
}

/// Compacts the state rebuilt from the data file and the log: returns the new
/// text of the data file, one `key value` line per stored key, each key once.
pub fn comando_snapshot(data: &ArchivoLeido, log: &ArchivoLeido) -> (r: Result<String, ErrorMiniKv>)
    ensures
        match estado_de(*data, *log) {
            Ok(m) => r is Ok && exists|s: Seq<Par>|
                #![trigger mapa_de(s)]
                claves_unicas(s) && mapa_de(s) == m && r->Ok_0@ == contenido_snapshot(s),
            Err(e) => r == Err::<String, ErrorMiniKv>(e),
        },
{
    let diccionario = crate::storage::reconstruir_estado(data, log)?;
    let contenido = contenido_de(&diccionario);
    Ok(contenido)
}

} // verus!
