use vstd::prelude::*;
use crate::comandos::{TipoComando, tipo_de};
use crate::diccionario::Diccionario;
use crate::errores::ErrorMiniKv;
use crate::parser::{argumentos, separar_argumentos};
use crate::texto::agregar_caracter;

verus! {

/// The contents of a key-value map, as character sequences.
pub type Mapa = Map<Seq<char>, Seq<char>>;

/// What reading one of the store's files gave.
pub enum ArchivoLeido {
    /// The file does not exist.
    Ausente,
    /// The file exists but could not be opened.
    NoSePuedeAbrir,
    /// The file was opened but its text could not be read.
    NoSePuedeLeer,
    /// The whole text of the file.
    Contenido(String),
}

/// The state of the line splitter after reading part of a text.
pub struct EstadoLineas {
    /// Lines completed so far.
    pub hechas: Seq<Seq<char>>,
    /// The line being read.
    pub actual: Seq<char>,
}

/// A line without the `\r` that ends it, if it ends with one.
pub open spec fn sin_retorno(l: Seq<char>) -> Seq<char> {
    if l.len() > 0 && l.last() == '\r' {
        l.drop_last()
    } else {
        l
    }
}

pub open spec fn paso_linea(e: EstadoLineas, c: char) -> EstadoLineas {
    if c == '\n' {
        EstadoLineas { hechas: e.hechas.push(sin_retorno(e.actual)), actual: Seq::empty() }
    } else {
        EstadoLineas { actual: e.actual.push(c), ..e }
    }
}

pub open spec fn recorrer_lineas(e: EstadoLineas, s: Seq<char>) -> EstadoLineas
    decreases s.len(),
{
    if s.len() == 0 {
        e
    } else {
        paso_linea(recorrer_lineas(e, s.drop_last()), s.last())
    }
}

pub open spec fn lineas_inicial() -> EstadoLineas {
    EstadoLineas { hechas: Seq::empty(), actual: Seq::empty() }
}

/// The lines of a text: it is cut after every `\n`, a line ended by `\r\n`
/// loses its `\r`, and a last piece without `\n` is a line when not empty.
pub open spec fn lineas(s: Seq<char>) -> Seq<Seq<char>> {
    let e = recorrer_lineas(lineas_inicial(), s);
    if e.actual.len() > 0 {
        e.hechas.push(e.actual)
    } else {
        e.hechas
    }
}

/// Cuts a text into lines, as reading it line by line would.
pub fn separar_lineas(texto: &str) -> (r: Vec<String>)
    ensures
        r.deep_view() == lineas(texto@),
{
    let mut hechas: Vec<String> = Vec::new();
    let mut actual = String::new();
    let mut retorno_pendiente = false;
    let ghost s = texto@;
    for c in it: texto.chars()
        invariant
            it.seq() == s,
            ({
                let e = recorrer_lineas(lineas_inicial(), s.take(it.index()));
                &&& hechas.deep_view() == e.hechas
                &&& e.actual == if retorno_pendiente { actual@.push('\r') } else { actual@ }
            }),
            !retorno_pendiente ==> actual@.len() == 0 || actual@.last() != '\r',
    {
        assert(s.take(it.index() + 1).drop_last() == s.take(it.index()));
        if c == '\n' {
            proof {
                if retorno_pendiente {
                    assert(actual@.push('\r').drop_last() == actual@);
                }
            }
            hechas.push(actual);
            actual = String::new();
            retorno_pendiente = false;
        } else {
            if retorno_pendiente {
                agregar_caracter(&mut actual, '\r');
            }
            if c == '\r' {
                retorno_pendiente = true;
            } else {
                retorno_pendiente = false;
                agregar_caracter(&mut actual, c);
            }
        }
    }
    assert(s.take(s.len() as int) == s);
    if retorno_pendiente {
        agregar_caracter(&mut actual, '\r');
    }
    if !actual.as_str().is_empty() {
        hechas.push(actual);
    }
    hechas
}

/// A log line is `set key value` or `set key`.
pub open spec fn linea_log_valida(linea: Seq<char>) -> bool {
    let p = argumentos(linea);
    (p.len() == 2 || p.len() == 3) && tipo_de(p[0]) == Some(TipoComando::Asignar)
}

/// A data line is `key value`.
pub open spec fn linea_data_valida(linea: Seq<char>) -> bool {
    argumentos(linea).len() == 2
}

/// Applies one line of the data file.
pub open spec fn paso_data(m: Mapa, linea: Seq<char>) -> Result<Mapa, ErrorMiniKv> {
    let p = argumentos(linea);
    if p.len() == 2 {
        Ok(m.insert(p[0], p[1]))
    } else {
        Err(ErrorMiniKv::InvalidDataFile)
    }
}

/// Applies one line of the log: `set key value` stores, `set key` removes.
pub open spec fn paso_log(m: Mapa, linea: Seq<char>) -> Result<Mapa, ErrorMiniKv> {
    let p = argumentos(linea);
    if !linea_log_valida(linea) {
        Err(ErrorMiniKv::InvalidLogFile)
    } else if p.len() == 3 {
        Ok(m.insert(p[1], p[2]))
    } else {
        Ok(m.remove(p[1]))
    }
}

/// Applies the lines of a data file in order; the first bad line stops it.
pub open spec fn cargar_data(m: Mapa, ls: Seq<Seq<char>>) -> Result<Mapa, ErrorMiniKv>
    decreases ls.len(),
{
    if ls.len() == 0 {
        Ok(m)
    } else {
        match cargar_data(m, ls.drop_last()) {
            Ok(m2) => paso_data(m2, ls.last()),
            Err(e) => Err(e),
        }
    }
}

/// Applies the lines of a log in order; the first bad line stops it.
pub open spec fn cargar_log(m: Mapa, ls: Seq<Seq<char>>) -> Result<Mapa, ErrorMiniKv>
    decreases ls.len(),
{
    if ls.len() == 0 {
        Ok(m)
    } else {
        match cargar_log(m, ls.drop_last()) {
            Ok(m2) => paso_log(m2, ls.last()),
            Err(e) => Err(e),
        }
    }
}

/// `m` is what the data lines before the first bad one, `ls[i]`, made of `m0`.
pub open spec fn carga_data_parcial(m0: Mapa, ls: Seq<Seq<char>>, m: Mapa) -> bool {
    exists|i: int|
        #![trigger cargar_data(m0, ls.take(i))]
        0 <= i < ls.len() && cargar_data(m0, ls.take(i)) == Ok::<Mapa, ErrorMiniKv>(m) && paso_data(m, ls[i]) is Err
}

/// `m` is what the log lines before the first bad one, `ls[i]`, made of `m0`.
pub open spec fn carga_log_parcial(m0: Mapa, ls: Seq<Seq<char>>, m: Mapa) -> bool {
    exists|i: int|
        #![trigger cargar_log(m0, ls.take(i))]
        0 <= i < ls.len() && cargar_log(m0, ls.take(i)) == Ok::<Mapa, ErrorMiniKv>(m) && paso_log(m, ls[i]) is Err
}

/// Applies what was read of the data file.
pub open spec fn cargar_data_archivo(m: Mapa, a: ArchivoLeido) -> Result<Mapa, ErrorMiniKv> {
    match a {
        ArchivoLeido::Ausente => Ok(m),
        ArchivoLeido::NoSePuedeAbrir => Err(ErrorMiniKv::InvalidDataFile),
        ArchivoLeido::NoSePuedeLeer => Err(ErrorMiniKv::InvalidDataFile),
        ArchivoLeido::Contenido(t) => cargar_data(m, lineas(t@)),
    }
}

/// Applies what was read of the log; a log that cannot be opened or read is a
/// log-file error.
pub open spec fn cargar_log_archivo(m: Mapa, a: ArchivoLeido) -> Result<Mapa, ErrorMiniKv> {
    match a {
        ArchivoLeido::Ausente => Ok(m),
        ArchivoLeido::NoSePuedeAbrir => Err(ErrorMiniKv::InvalidLogFile),
        ArchivoLeido::NoSePuedeLeer => Err(ErrorMiniKv::InvalidLogFile),
        ArchivoLeido::Contenido(t) => cargar_log(m, lineas(t@)),
    }
}

/// The state of the store: the data file's pairs, then the log applied on top.
pub open spec fn estado_de(data: ArchivoLeido, log: ArchivoLeido) -> Result<Mapa, ErrorMiniKv> {
    match cargar_data_archivo(Map::empty(), data) {
        Ok(m) => cargar_log_archivo(m, log),
        Err(e) => Err(e),
    }
}

/// Checks that a line of the log has the form `set key value` or `set key`.
pub fn validar_linea_log(linea: &str) -> (r: Result<(), ErrorMiniKv>)
    ensures
        r == if linea_log_valida(linea@) {
            Ok::<(), ErrorMiniKv>(())
        } else {
            Err::<(), ErrorMiniKv>(ErrorMiniKv::InvalidLogFile)
        },
{
    let partes = separar_argumentos(linea);
    proof {
        assert(partes.deep_view().len() == partes.len());
    }
    if partes.len() == 2 || partes.len() == 3 {
        assert(partes.deep_view()[0] == partes@[0]@);
        match TipoComando::desde_texto(partes[0].as_str()) {
            Ok(TipoComando::Asignar) => Ok(()),
            _ => Err(ErrorMiniKv::InvalidLogFile),
        }
    } else {
        Err(ErrorMiniKv::InvalidLogFile)
    }
}

/// Checks that a line of the data file has the form `key value`.
pub fn validar_linea_data(linea: &str) -> (r: Result<(), ErrorMiniKv>)
    ensures
        r == if linea_data_valida(linea@) {
            Ok::<(), ErrorMiniKv>(())
        } else {
            Err::<(), ErrorMiniKv>(ErrorMiniKv::InvalidDataFile)
        },
{
    let partes = separar_argumentos(linea);
    proof {
        assert(partes.deep_view().len() == partes.len());
    }
    if partes.len() != 2 {
        return Err(ErrorMiniKv::InvalidDataFile);
    }
    Ok(())
}

/// Once the data lines read so far have failed, the whole data file fails the same way.
proof fn lema_error_data(m: Mapa, ls: Seq<Seq<char>>, i: int, j: int, e: ErrorMiniKv)
    requires
        0 <= i <= j <= ls.len(),
        cargar_data(m, ls.take(i)) == Err::<Mapa, ErrorMiniKv>(e),
    ensures
        cargar_data(m, ls.take(j)) == Err::<Mapa, ErrorMiniKv>(e),
    decreases j - i,
{
    if j > i {
        lema_error_data(m, ls, i, j - 1, e);
        assert(ls.take(j).drop_last() == ls.take(j - 1));
    }
}

/// Once the log lines read so far have failed, the whole log fails the same way.
proof fn lema_error_log(m: Mapa, ls: Seq<Seq<char>>, i: int, j: int, e: ErrorMiniKv)
    requires
        0 <= i <= j <= ls.len(),
        cargar_log(m, ls.take(i)) == Err::<Mapa, ErrorMiniKv>(e),
    ensures
        cargar_log(m, ls.take(j)) == Err::<Mapa, ErrorMiniKv>(e),
    decreases j - i,
{
    if j > i {
        lema_error_log(m, ls, i, j - 1, e);
        assert(ls.take(j).drop_last() == ls.take(j - 1));
    }
}

/// Applies every line of a data file's text to the dictionary.
fn cargar_lineas_data(diccionario: &mut Diccionario, texto: &str) -> (r: Result<(), ErrorMiniKv>)
    ensures
        match cargar_data(old(diccionario)@, lineas(texto@)) {
            Ok(m) => r is Ok && final(diccionario)@ == m,
            Err(e) => r == Err::<(), ErrorMiniKv>(e) && carga_data_parcial(
                old(diccionario)@,
                lineas(texto@),
                final(diccionario)@,
            ),
        },
{
    let ls = separar_lineas(texto);
    let ghost todas = lineas(texto@);
    let ghost m0 = diccionario@;
    let n = ls.len();
    let mut i: usize = 0;
    assert(todas.take(0) == Seq::<Seq<char>>::empty());
    while i < n
        invariant
            ls.deep_view() == todas,
            m0 == old(diccionario)@,
            todas == lineas(texto@),
            n == ls.len(),
            n == todas.len(),
            i <= n,
            cargar_data(m0, todas.take(i as int)) == Ok::<Mapa, ErrorMiniKv>(diccionario@),
        decreases n - i,
    {
        assert(todas.take(i + 1).drop_last() == todas.take(i as int));
        assert(ls@[i as int]@ == todas[i as int]);
        assert(todas.take(i + 1).last() == todas[i as int]);
        let linea = ls[i].as_str();
        if validar_linea_data(linea).is_err() {
            proof {
                lema_error_data(m0, todas, i + 1, n as int, ErrorMiniKv::InvalidDataFile);
                assert(todas.take(n as int) == todas);
                assert(cargar_data(m0, todas.take(i as int)) == Ok::<Mapa, ErrorMiniKv>(diccionario@));
                assert(carga_data_parcial(m0, todas, diccionario@));

            }
            return Err(ErrorMiniKv::InvalidDataFile);
        }
        let partes = separar_argumentos(linea);
        assert(partes.deep_view()[0] == partes@[0]@);
        assert(partes.deep_view()[1] == partes@[1]@);
        let clave = partes[0].clone();
        let valor = partes[1].clone();
        diccionario.insertar(clave, valor);
        i = i + 1;
    }
    assert(todas.take(n as int) == todas);
    Ok(())
}

/// Applies every line of a log's text to the dictionary.
fn cargar_lineas_log(diccionario: &mut Diccionario, texto: &str) -> (r: Result<(), ErrorMiniKv>)
    ensures
        match cargar_log(old(diccionario)@, lineas(texto@)) {
            Ok(m) => r is Ok && final(diccionario)@ == m,
            Err(e) => r == Err::<(), ErrorMiniKv>(e) && carga_log_parcial(
                old(diccionario)@,
                lineas(texto@),
                final(diccionario)@,
            ),
        },
{
    let ls = separar_lineas(texto);
    let ghost todas = lineas(texto@);
    let ghost m0 = diccionario@;
    let n = ls.len();
    let mut i: usize = 0;
    assert(todas.take(0) == Seq::<Seq<char>>::empty());
    while i < n
        invariant
            ls.deep_view() == todas,
            m0 == old(diccionario)@,
            todas == lineas(texto@),
            n == ls.len(),
            n == todas.len(),
            i <= n,
            cargar_log(m0, todas.take(i as int)) == Ok::<Mapa, ErrorMiniKv>(diccionario@),
        decreases n - i,
    {
        assert(todas.take(i + 1).drop_last() == todas.take(i as int));
        assert(ls@[i as int]@ == todas[i as int]);
        assert(todas.take(i + 1).last() == todas[i as int]);
        let linea = ls[i].as_str();
        if validar_linea_log(linea).is_err() {
            proof {
                lema_error_log(m0, todas, i + 1, n as int, ErrorMiniKv::InvalidLogFile);
                assert(todas.take(n as int) == todas);
                assert(cargar_log(m0, todas.take(i as int)) == Ok::<Mapa, ErrorMiniKv>(diccionario@));
                assert(carga_log_parcial(m0, todas, diccionario@));
            }
            return Err(ErrorMiniKv::InvalidLogFile);
        }
        let partes = separar_argumentos(linea);
        assert(partes.deep_view().len() == partes.len());
        if partes.len() == 3 {
            assert(partes.deep_view()[1] == partes@[1]@);
            assert(partes.deep_view()[2] == partes@[2]@);
            let clave = partes[1].clone();
            let valor = partes[2].clone();
            diccionario.insertar(clave, valor);
        } else {
            assert(partes.deep_view()[1] == partes@[1]@);
            diccionario.quitar(partes[1].as_str());
        }
        i = i + 1;
    }
    assert(todas.take(n as int) == todas);
    Ok(())
}

/// Loads the pairs of the data file into the dictionary; a missing file adds nothing.
fn cargar_data_en_memoria(diccionario: &mut Diccionario, archivo: &ArchivoLeido) -> (r: Result<
    (),
    ErrorMiniKv,
>)
    ensures
        match cargar_data_archivo(old(diccionario)@, *archivo) {
            Ok(m) => r is Ok && final(diccionario)@ == m,
            Err(e) => r == Err::<(), ErrorMiniKv>(e) && match *archivo {
                ArchivoLeido::Contenido(t) => carga_data_parcial(old(diccionario)@, lineas(t@), final(diccionario)@),
                _ => final(diccionario)@ == old(diccionario)@,
            },
        },
{
    match archivo {
        ArchivoLeido::Ausente => Ok(()),
        ArchivoLeido::NoSePuedeAbrir => Err(ErrorMiniKv::InvalidDataFile),
        ArchivoLeido::NoSePuedeLeer => Err(ErrorMiniKv::InvalidDataFile),
        ArchivoLeido::Contenido(texto) => cargar_lineas_data(diccionario, texto.as_str()),
    }
}

/// Applies the operations of the log to the dictionary; a missing log changes nothing.
fn cargar_log_en_memoria(diccionario: &mut Diccionario, archivo: &ArchivoLeido) -> (r: Result<
    (),
    ErrorMiniKv,
>)
    ensures
        match cargar_log_archivo(old(diccionario)@, *archivo) {
            Ok(m) => r is Ok && final(diccionario)@ == m,
            Err(e) => r == Err::<(), ErrorMiniKv>(e) && match *archivo {
                ArchivoLeido::Contenido(t) => carga_log_parcial(old(diccionario)@, lineas(t@), final(diccionario)@),
                _ => final(diccionario)@ == old(diccionario)@,
            },
        },
{
    match archivo {
        ArchivoLeido::Ausente => Ok(()),
        ArchivoLeido::NoSePuedeAbrir => Err(ErrorMiniKv::InvalidLogFile),
        ArchivoLeido::NoSePuedeLeer => Err(ErrorMiniKv::InvalidLogFile),
        ArchivoLeido::Contenido(texto) => cargar_lineas_log(diccionario, texto.as_str()),
    }
}

/// Rebuilds the state of the store: the pairs of the data file, then the
/// operations of the log applied in order.
pub fn reconstruir_estado(data: &ArchivoLeido, log: &ArchivoLeido) -> (r: Result<
    Diccionario,
    ErrorMiniKv,
>)
    ensures
        match estado_de(*data, *log) {
            Ok(m) => r is Ok && r->Ok_0@ == m,
            Err(e) => r is Err && r->Err_0 == e,
        },
{
    let mut diccionario = Diccionario::nuevo();
    cargar_data_en_memoria(&mut diccionario, data)?;
    cargar_log_en_memoria(&mut diccionario, log)?;
    Ok(diccionario)
}

} // verus!
