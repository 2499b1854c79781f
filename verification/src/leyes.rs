use vstd::prelude::*;
use crate::comandos::{
    ComandoVista, TipoComando, comando_de_palabras, comando_esperado, texto_get, texto_length, texto_snapshot,
    texto_set, tipo_de, linea_set, linea_unset, linea_data, contenido_snapshot};
use crate::comunicacion::{
    AccionVista, Respuesta, decimal, digitos, efecto_en_memoria, linea_de_registro, salida_esperada,
    texto_de_respuesta,
};
use crate::errores::ErrorMiniKv;
use crate::diccionario::{Par, claves_unicas, lema_valor, mapa_de};
use crate::parser::{
    EstadoSeparador, argumentos, escapar, escapar_caracter, estado_inicial, lema_recorrer_concatenacion,
    lema_recorrer_uno, lema_serializado, paso, recorrer, serializado,
};
use crate::storage::{
    ArchivoLeido, EstadoLineas, Mapa, cargar_data, cargar_data_archivo, cargar_log, estado_de,
    lineas, lineas_inicial, paso_linea, recorrer_lineas, sin_retorno,
};

verus! {

/// A text fit to be stored and read back: not empty, with no `\` and no line break.
pub open spec fn texto_almacenable(t: Seq<char>) -> bool {
    t.len() > 0 && !t.contains('\\') && !t.contains('\n')
}

/// Reading `a + b` into lines is reading `a`, then `b` from where `a` left off.
pub proof fn lema_lineas_concatenacion(e: EstadoLineas, a: Seq<char>, b: Seq<char>)
    ensures
        recorrer_lineas(e, a + b) == recorrer_lineas(recorrer_lineas(e, a), b),
    decreases b.len(),
{
    if b.len() == 0 {
        assert(a + b == a);
    } else {
        lema_lineas_concatenacion(e, a, b.drop_last());
        assert((a + b).drop_last() == a + b.drop_last());
        assert((a + b).last() == b.last());
    }
}

/// Text without line breaks only extends the line being read.
pub proof fn lema_lineas_sin_salto(e: EstadoLineas, t: Seq<char>)
    requires
        !t.contains('\n'),
    ensures
        recorrer_lineas(e, t) == (EstadoLineas { hechas: e.hechas, actual: e.actual + t }),
    decreases t.len(),
{
    if t.len() == 0 {
        assert(e.actual + t == e.actual);
    } else {
        let p = t.drop_last();
        assert(!p.contains('\n')) by {
            if p.contains('\n') {
                let i = choose|i: int| 0 <= i < p.len() && p[i] == '\n';
                assert(t[i] == '\n');
            }
        }
        assert(t[t.len() - 1] == t.last());
        lema_lineas_sin_salto(e, p);
        assert((e.actual + p).push(t.last()) == e.actual + t);
    }
}

/// A text that is empty or ends with a line break leaves no line half read.
pub open spec fn termina_en_salto(s: Seq<char>) -> bool {
    s.len() == 0 || s.last() == '\n'
}

pub proof fn lema_sin_linea_pendiente(s: Seq<char>)
    requires
        termina_en_salto(s),
    ensures
        recorrer_lineas(lineas_inicial(), s).actual == Seq::<char>::empty(),
        lineas(s) == recorrer_lineas(lineas_inicial(), s).hechas,
{
}

/// Appending one line that ends with `\n` (and not with `\r\n`) to a text that
/// ends with a line break adds exactly that line.
pub proof fn lema_lineas_agregar(a: Seq<char>, l: Seq<char>)
    requires
        termina_en_salto(a),
        !l.contains('\n'),
        l.len() == 0 || l.last() != '\r',
    ensures
        lineas(a + l + seq!['\n']) == lineas(a).push(l),
        termina_en_salto(a + l + seq!['\n']),
{
    let e = recorrer_lineas(lineas_inicial(), a);
    lema_sin_linea_pendiente(a);
    lema_lineas_concatenacion(lineas_inicial(), a, l + seq!['\n']);
    lema_lineas_concatenacion(e, l, seq!['\n']);
    lema_lineas_sin_salto(e, l);
    let e2 = EstadoLineas { hechas: e.hechas, actual: e.actual + l };
    assert(e.actual + l == l);
    assert(seq!['\n'].drop_last() == Seq::<char>::empty());
    assert(seq!['\n'].last() == '\n');
    assert(recorrer_lineas(e2, Seq::<char>::empty()) == e2);
    assert(recorrer_lineas(e2, seq!['\n']) == paso_linea(e2, '\n'));
    assert(sin_retorno(l) == l);
    assert(a + (l + seq!['\n']) == a + l + seq!['\n']);
    let s = a + l + seq!['\n'];
    assert(s.last() == '\n');
}

/// Characters that are neither a space, a quote nor a `\` only extend the argument.
pub proof fn lema_palabra(e: EstadoSeparador, t: Seq<char>)
    requires
        !e.escape,
        !t.contains('\\'),
        !t.contains('"'),
        !t.contains(' '),
    ensures
        recorrer(e, t) == (EstadoSeparador { actual: e.actual + t, ..e }),
    decreases t.len(),
{
    if t.len() == 0 {
        assert(e.actual + t == e.actual);
    } else {
        let p = t.drop_last();
        assert(forall|i: int| 0 <= i < p.len() ==> p[i] == t[i]);
        assert(!p.contains('\\') && !p.contains('"') && !p.contains(' '));
        assert(t[t.len() - 1] == t.last());
        lema_palabra(e, p);
        assert((e.actual + p).push(t.last()) == e.actual + t);
    }
}

/// A space outside quotes ends the argument being read.
pub proof fn lema_espacio(e: EstadoSeparador)
    requires
        !e.escape,
        !e.en_comillas,
        e.actual.len() > 0,
    ensures
        recorrer(e, seq![' ']) == (EstadoSeparador { args: e.args.push(e.actual), actual: Seq::empty(), ..e }),
{
    lema_recorrer_uno(e, ' ');
}

/// A serialized text followed by a space, read outside quotes after finished
/// arguments, adds the text as one more argument.
pub proof fn lema_argumento_serializado(e: EstadoSeparador, t: Seq<char>)
    requires
        !e.escape,
        !e.en_comillas,
        e.actual.len() == 0,
        texto_almacenable(t),
    ensures
        recorrer(e, serializado(t) + seq![' ']) == (EstadoSeparador { args: e.args.push(t), ..e }),
{
    lema_recorrer_concatenacion(e, serializado(t), seq![' ']);
    lema_serializado(e, t);
    let e1 = EstadoSeparador { actual: e.actual + t, ..e };
    assert(e.actual + t == t);
    lema_espacio(e1);
    assert(e.actual == Seq::<char>::empty());
}

/// The arguments of a log line written for `set key value`.
pub proof fn lema_argumentos_set(k: Seq<char>, v: Seq<char>)
    requires
        texto_almacenable(k),
        texto_almacenable(v),
    ensures
        argumentos(linea_set(k, v).drop_last()) == seq![texto_set(), k, v],
{
    let l = texto_set() + seq![' '] + serializado(k) + seq![' '] + serializado(v);
    assert(linea_set(k, v).drop_last() == l);
    let e0 = estado_inicial();
    assert(!texto_set().contains('\\') && !texto_set().contains('"') && !texto_set().contains(' ')) by {
        assert(texto_set()[0] == 's' && texto_set()[1] == 'e' && texto_set()[2] == 't');
    }
    lema_palabra(e0, texto_set());
    let e1 = EstadoSeparador { actual: texto_set(), ..e0 };
    assert(e0.actual + texto_set() == texto_set());
    lema_espacio(e1);
    let e2 = EstadoSeparador { args: seq![texto_set()], actual: Seq::empty(), ..e0 };
    assert(Seq::<Seq<char>>::empty().push(texto_set()) == seq![texto_set()]);
    lema_argumento_serializado(e2, k);
    let e3 = EstadoSeparador { args: seq![texto_set(), k], ..e2 };
    assert(seq![texto_set()].push(k) == seq![texto_set(), k]);
    lema_serializado(e3, v);
    let e4 = EstadoSeparador { actual: v, ..e3 };
    assert(e3.actual + v == v);
    lema_recorrer_concatenacion(e0, texto_set(), seq![' ']);
    lema_recorrer_concatenacion(e0, texto_set() + seq![' '], serializado(k) + seq![' ']);
    assert(texto_set() + seq![' '] + (serializado(k) + seq![' ']) == texto_set() + seq![' '] + serializado(k) + seq![' ']);
    lema_recorrer_concatenacion(e0, texto_set() + seq![' '] + serializado(k) + seq![' '], serializado(v));
    assert(seq![texto_set(), k].push(v) == seq![texto_set(), k, v]);
}

/// Escaping adds no line break and no `\r`-ending to a text without line breaks.
pub proof fn lema_escapar_sin_salto(t: Seq<char>)
    requires
        !t.contains('\n'),
    ensures
        !escapar(t).contains('\n'),
    decreases t.len(),
{
    if t.len() > 0 {
        let p = t.drop_last();
        assert(forall|i: int| 0 <= i < p.len() ==> p[i] == t[i]);
        assert(!p.contains('\n'));
        lema_escapar_sin_salto(p);
        assert(t[t.len() - 1] == t.last());
        let q = escapar_caracter(t.last());
        assert(!q.contains('\n'));
        let r = escapar(p) + q;
        assert(escapar(t) == r);
        if r.contains('\n') {
            let i = choose|i: int| 0 <= i < r.len() && r[i] == '\n';
            if i < escapar(p).len() {
                assert(escapar(p)[i] == '\n');
            } else {
                assert(q[i - escapar(p).len()] == '\n');
            }
        }
    }
}

/// A serialized text without line breaks has none either, and ends with a quote.
pub proof fn lema_serializado_sin_salto(t: Seq<char>)
    requires
        !t.contains('\n'),
    ensures
        !serializado(t).contains('\n'),
        serializado(t).len() > 0,
        serializado(t).last() == '"',
{
    lema_escapar_sin_salto(t);
    let s = serializado(t);
    if s.contains('\n') {
        let i = choose|i: int| 0 <= i < s.len() && s[i] == '\n';
        if 1 <= i < 1 + escapar(t).len() {
            assert(escapar(t)[i - 1] == '\n');
        }
    }
}

/// The arguments of a log line written to remove a key.
pub proof fn lema_argumentos_unset(k: Seq<char>)
    requires
        texto_almacenable(k),
    ensures
        argumentos(linea_unset(k).drop_last()) == seq![texto_set(), k],
{
    let l = texto_set() + seq![' '] + serializado(k);
    assert(linea_unset(k).drop_last() == l);
    let e0 = estado_inicial();
    assert(!texto_set().contains('\\') && !texto_set().contains('"') && !texto_set().contains(' ')) by {
        assert(texto_set()[0] == 's' && texto_set()[1] == 'e' && texto_set()[2] == 't');
    }
    lema_palabra(e0, texto_set());
    let e1 = EstadoSeparador { actual: texto_set(), ..e0 };
    assert(e0.actual + texto_set() == texto_set());
    lema_espacio(e1);
    let e2 = EstadoSeparador { args: seq![texto_set()], actual: Seq::empty(), ..e0 };
    assert(Seq::<Seq<char>>::empty().push(texto_set()) == seq![texto_set()]);
    lema_serializado(e2, k);
    assert(e2.actual + k == k);
    lema_recorrer_concatenacion(e0, texto_set(), seq![' ']);
    lema_recorrer_concatenacion(e0, texto_set() + seq![' '], serializado(k));
    assert(seq![texto_set()].push(k) == seq![texto_set(), k]);
}

/// The arguments of a data line written for a pair.
pub proof fn lema_argumentos_data(p: Par)
    requires
        texto_almacenable(p.0),
        texto_almacenable(p.1),
    ensures
        argumentos(linea_data(p).drop_last()) == seq![p.0, p.1],
{
    let l = serializado(p.0) + seq![' '] + serializado(p.1);
    assert(linea_data(p).drop_last() == l);
    let e0 = estado_inicial();
    lema_argumento_serializado(e0, p.0);
    let e1 = EstadoSeparador { args: seq![p.0], ..e0 };
    assert(Seq::<Seq<char>>::empty().push(p.0) == seq![p.0]);
    lema_serializado(e1, p.1);
    assert(e1.actual + p.1 == p.1);
    lema_recorrer_concatenacion(e0, serializado(p.0) + seq![' '], serializado(p.1));
    assert(seq![p.0].push(p.1) == seq![p.0, p.1]);
}

/// A log line for `set key value` is one line, with no `\r` at its end.
proof fn lema_linea_set_es_una_linea(k: Seq<char>, v: Seq<char>)
    requires
        texto_almacenable(k),
        texto_almacenable(v),
    ensures
        linea_set(k, v) == linea_set(k, v).drop_last() + seq!['\n'],
        !linea_set(k, v).drop_last().contains('\n'),
        linea_set(k, v).drop_last().last() == '"',
{
    let l = linea_set(k, v).drop_last();
    lema_serializado_sin_salto(k);
    lema_serializado_sin_salto(v);
    let a = texto_set() + seq![' '] + serializado(k) + seq![' '];
    assert(l == a + serializado(v));
    assert(!a.contains('\n')) by {
        if a.contains('\n') {
            let i = choose|i: int| 0 <= i < a.len() && a[i] == '\n';
            if 4 <= i < 4 + serializado(k).len() {
                assert(serializado(k)[i - 4] == '\n');
            }
        }
    }
    if l.contains('\n') {
        let i = choose|i: int| 0 <= i < l.len() && l[i] == '\n';
        if i >= a.len() {
            assert(serializado(v)[i - a.len()] == '\n');
        } else {
            assert(a[i] == '\n');
        }
    }
    assert(l.last() == serializado(v).last());
}

/// A log line to remove a key is one line, with no `\r` at its end.
proof fn lema_linea_unset_es_una_linea(k: Seq<char>)
    requires
        texto_almacenable(k),
    ensures
        linea_unset(k) == linea_unset(k).drop_last() + seq!['\n'],
        !linea_unset(k).drop_last().contains('\n'),
        linea_unset(k).drop_last().last() == '"',
{
    let l = linea_unset(k).drop_last();
    lema_serializado_sin_salto(k);
    let a = texto_set() + seq![' '];
    assert(l == a + serializado(k));
    if l.contains('\n') {
        let i = choose|i: int| 0 <= i < l.len() && l[i] == '\n';
        if i >= a.len() {
            assert(serializado(k)[i - a.len()] == '\n');
        }
    }
    assert(l.last() == serializado(k).last());
}

/// What a `set key value` appended to the log does to the state rebuilt from the files.
pub open spec fn tras_asignar(r: Result<Mapa, crate::errores::ErrorMiniKv>, k: Seq<char>, v: Seq<char>) -> Result<
    Mapa,
    crate::errores::ErrorMiniKv,
> {
    match r {
        Ok(m) => Ok(m.insert(k, v)),
        Err(e) => Err(e),
    }
}

/// What a key removal appended to the log does to the state rebuilt from the files.
pub open spec fn tras_quitar(r: Result<Mapa, crate::errores::ErrorMiniKv>, k: Seq<char>) -> Result<
    Mapa,
    crate::errores::ErrorMiniKv,
> {
    match r {
        Ok(m) => Ok(m.remove(k)),
        Err(e) => Err(e),
    }
}

/// A `set key value` written to the log is read back: the rebuilt state has
/// the value under the key, and is otherwise unchanged (an earlier error stays).
pub proof fn ley_set_se_lee(data: ArchivoLeido, antes: String, despues: String, k: Seq<char>, v: Seq<char>)
    requires
        termina_en_salto(antes@),
        despues@ == antes@ + linea_set(k, v),
        texto_almacenable(k),
        texto_almacenable(v),
    ensures
        estado_de(data, ArchivoLeido::Contenido(despues)) == tras_asignar(
            estado_de(data, ArchivoLeido::Contenido(antes)),
            k,
            v,
        ),
        termina_en_salto(despues@),
{
    let l = linea_set(k, v).drop_last();
    lema_linea_set_es_una_linea(k, v);
    assert(despues@ == antes@ + l + seq!['\n']);
    lema_lineas_agregar(antes@, l);
    lema_argumentos_set(k, v);
    assert(tipo_de(texto_set()) is Some);
    let ls = lineas(antes@);
    assert(lineas(despues@).drop_last() == ls);
}

/// A key removal written to the log is read back: the rebuilt state no longer
/// has the key, and is otherwise unchanged (an earlier error stays).
pub proof fn ley_unset_se_lee(data: ArchivoLeido, antes: String, despues: String, k: Seq<char>)
    requires
        termina_en_salto(antes@),
        despues@ == antes@ + linea_unset(k),
        texto_almacenable(k),
    ensures
        estado_de(data, ArchivoLeido::Contenido(despues)) == tras_quitar(
            estado_de(data, ArchivoLeido::Contenido(antes)),
            k,
        ),
        termina_en_salto(despues@),
{
    let l = linea_unset(k).drop_last();
    lema_linea_unset_es_una_linea(k);
    assert(despues@ == antes@ + l + seq!['\n']);
    lema_lineas_agregar(antes@, l);
    lema_argumentos_unset(k);
    assert(tipo_de(texto_set()) is Some);
    let ls = lineas(antes@);
    assert(lineas(despues@).drop_last() == ls);
}

/// Both texts of a pair are fit to be stored.
pub open spec fn par_almacenable(p: Par) -> bool {
    texto_almacenable(p.0) && texto_almacenable(p.1)
}

/// Every key and value of a map is fit to be stored.
pub open spec fn mapa_almacenable(m: Mapa) -> bool {
    forall|k: Seq<char>| #[trigger] m.contains_key(k) ==> texto_almacenable(k) && texto_almacenable(m[k])
}

/// The data lines written for the pairs of `s`, without their line breaks.
pub open spec fn lineas_de_pares(s: Seq<Par>) -> Seq<Seq<char>> {
    s.map_values(|p: Par| linea_data(p).drop_last())
}

/// A data line for a pair is one line, with no `\r` at its end.
proof fn lema_linea_data_es_una_linea(p: Par)
    requires
        par_almacenable(p),
    ensures
        linea_data(p) == linea_data(p).drop_last() + seq!['\n'],
        !linea_data(p).drop_last().contains('\n'),
        linea_data(p).drop_last().last() == '"',
{
    let l = linea_data(p).drop_last();
    lema_serializado_sin_salto(p.0);
    lema_serializado_sin_salto(p.1);
    let a = serializado(p.0) + seq![' '];
    assert(l == a + serializado(p.1));
    assert(!a.contains('\n')) by {
        if a.contains('\n') {
            let i = choose|i: int| 0 <= i < a.len() && a[i] == '\n';
            if i < serializado(p.0).len() {
                assert(serializado(p.0)[i] == '\n');
            }
        }
    }
    if l.contains('\n') {
        let i = choose|i: int| 0 <= i < l.len() && l[i] == '\n';
        if i >= a.len() {
            assert(serializado(p.1)[i - a.len()] == '\n');
        } else {
            assert(a[i] == '\n');
        }
    }
    assert(l.last() == serializado(p.1).last());
}

/// The lines of a snapshot text are the data lines of its pairs.
pub proof fn lema_lineas_snapshot(s: Seq<Par>)
    requires
        forall|i: int| 0 <= i < s.len() ==> par_almacenable(#[trigger] s[i]),
    ensures
        lineas(contenido_snapshot(s)) == lineas_de_pares(s),
        termina_en_salto(contenido_snapshot(s)),
    decreases s.len(),
{
    if s.len() == 0 {
        assert(lineas(Seq::<char>::empty()) == Seq::<Seq<char>>::empty());
        assert(lineas_de_pares(s) == Seq::<Seq<char>>::empty());
    } else {
        let p = s.drop_last();
        assert(forall|i: int| 0 <= i < p.len() ==> p[i] == s[i]);
        lema_lineas_snapshot(p);
        let q = s.last();
        assert(s[s.len() - 1] == q);
        lema_linea_data_es_una_linea(q);
        let l = linea_data(q).drop_last();
        lema_lineas_agregar(contenido_snapshot(p), l);
        assert(contenido_snapshot(s) == contenido_snapshot(p) + l + seq!['\n']);
        assert(lineas_de_pares(s) == lineas_de_pares(p).push(l));
    }
}

/// Loading the data lines of the pairs of `s` gives the map of `s`.
pub proof fn lema_cargar_pares(s: Seq<Par>)
    requires
        forall|i: int| 0 <= i < s.len() ==> par_almacenable(#[trigger] s[i]),
    ensures
        cargar_data(Map::empty(), lineas_de_pares(s)) == Ok::<Mapa, crate::errores::ErrorMiniKv>(mapa_de(s)),
    decreases s.len(),
{
    if s.len() > 0 {
        let p = s.drop_last();
        assert(forall|i: int| 0 <= i < p.len() ==> p[i] == s[i]);
        lema_cargar_pares(p);
        assert(lineas_de_pares(s).drop_last() == lineas_de_pares(p));
        let q = s.last();
        assert(s[s.len() - 1] == q);
        lema_argumentos_data(q);
        assert(lineas_de_pares(s).last() == linea_data(q).drop_last());
    }
}

/// An empty log is read as no log at all.
pub proof fn ley_log_vacio(data: ArchivoLeido, log: String)
    requires
        log@.len() == 0,
    ensures
        estado_de(data, ArchivoLeido::Contenido(log)) == estado_de(data, ArchivoLeido::Ausente),
{
    assert(lineas(log@) == Seq::<Seq<char>>::empty());
}

/// A snapshot keeps the state: the text written for the pairs of a map, read
/// back as the data file beside an empty log, rebuilds that very map, as long
/// as every key and value is fit to be stored.
pub proof fn ley_snapshot_conserva(m: Mapa, s: Seq<Par>, datos: String, log: String)
    requires
        mapa_almacenable(m),
        claves_unicas(s),
        mapa_de(s) == m,
        datos@ == contenido_snapshot(s),
        log@.len() == 0,
    ensures
        estado_de(ArchivoLeido::Contenido(datos), ArchivoLeido::Contenido(log)) == Ok::<
            Mapa,
            crate::errores::ErrorMiniKv,
        >(m),
{
    assert forall|i: int| 0 <= i < s.len() implies par_almacenable(#[trigger] s[i]) by {
        lema_valor(s, i);
    }
    lema_lineas_snapshot(s);
    lema_cargar_pares(s);
    assert(lineas(log@) == Seq::<Seq<char>>::empty());
}

/// An operation whose texts are fit to be stored.
pub open spec fn comando_almacenable(c: ComandoVista) -> bool {
    match c {
        ComandoVista::Asignar(k, v) => texto_almacenable(k) && texto_almacenable(v),
        ComandoVista::Unset(k) => texto_almacenable(k),
        _ => true,
    }
}

/// The server's store in memory keeps matching its files: when the state
/// rebuilt from the files equals the store before an operation, it equals the
/// store after the operation once the operation's log line (if any) is appended.
pub proof fn ley_memoria_igual_archivos(
    data: ArchivoLeido,
    antes: String,
    despues: String,
    m: Mapa,
    c: ComandoVista,
)
    requires
        estado_de(data, ArchivoLeido::Contenido(antes)) == Ok::<Mapa, crate::errores::ErrorMiniKv>(m),
        termina_en_salto(antes@),
        comando_almacenable(c),
        despues@ == match linea_de_registro(c) {
            Some(l) => antes@ + l,
            None => antes@,
        },
    ensures
        estado_de(data, ArchivoLeido::Contenido(despues)) == Ok::<Mapa, crate::errores::ErrorMiniKv>(
            efecto_en_memoria(m, c),
        ),
        termina_en_salto(despues@),
{
    match c {
        ComandoVista::Asignar(k, v) => {
            ley_set_se_lee(data, antes, despues, k, v);
        },
        ComandoVista::Unset(k) => {
            ley_unset_se_lee(data, antes, despues, k);
        },
        _ => {
            assert(despues@ == antes@);
        },
    }
}

/// A text is not empty and has no line break.
pub open spec fn sin_salto_y_no_vacio(t: Seq<char>) -> bool {
    t.len() > 0 && !t.contains('\n')
}

/// Every key and value of a map is not empty and has no line break.
pub open spec fn mapa_sin_saltos(m: Mapa) -> bool {
    forall|k: Seq<char>| #[trigger] m.contains_key(k) ==> sin_salto_y_no_vacio(k) && sin_salto_y_no_vacio(m[k])
}

proof fn lema_push_sin_salto(t: Seq<char>, c: char)
    requires
        !t.contains('\n'),
        c != '\n',
    ensures
        !t.push(c).contains('\n'),
{
    let u = t.push(c);
    if u.contains('\n') {
        let i = choose|i: int| 0 <= i < u.len() && u[i] == '\n';
        if i < t.len() {
            assert(t[i] == '\n');
        }
    }
}

proof fn lema_prefijo_sin_salto(t: Seq<char>, j: int)
    requires
        !t.contains('\n'),
        0 <= j <= t.len(),
    ensures
        !t.take(j).contains('\n'),
{
    let u = t.take(j);
    if u.contains('\n') {
        let i = choose|i: int| 0 <= i < u.len() && u[i] == '\n';
        assert(t[i] == '\n');
    }
}

/// What the splitter has read from a text without line breaks has none either,
/// and every finished argument is not empty.
pub open spec fn separador_sano(e: EstadoSeparador) -> bool {
    &&& forall|i: int| 0 <= i < e.args.len() ==> sin_salto_y_no_vacio(#[trigger] e.args[i])
    &&& !e.actual.contains('\n')
}

proof fn lema_separador_sano(s: Seq<char>)
    requires
        !s.contains('\n'),
    ensures
        separador_sano(recorrer(estado_inicial(), s)),
    decreases s.len(),
{
    if s.len() > 0 {
        let p = s.drop_last();
        lema_prefijo_sin_salto(s, s.len() - 1);
        assert(p == s.take(s.len() - 1));
        lema_separador_sano(p);
        let e = recorrer(estado_inicial(), p);
        let c = s.last();
        assert(s[s.len() - 1] == c);
        lema_push_sin_salto(e.actual, c);
        let e2 = paso(e, c);
        if !e.escape && c == ' ' && !e.en_comillas && e.actual.len() > 0 {
            assert forall|i: int| 0 <= i < e2.args.len() implies sin_salto_y_no_vacio(#[trigger] e2.args[i]) by {
                if i < e.args.len() {
                    assert(e2.args[i] == e.args[i]);
                }
            }
            assert(!e2.actual.contains('\n'));
        }
    }
}

/// The arguments of a line without line breaks are not empty and have none.
pub proof fn lema_argumentos_sanos(l: Seq<char>)
    requires
        !l.contains('\n'),
    ensures
        forall|i: int| 0 <= i < argumentos(l).len() ==> sin_salto_y_no_vacio(#[trigger] argumentos(l)[i]),
{
    lema_separador_sano(l);
    let e = recorrer(estado_inicial(), l);
    assert forall|i: int| 0 <= i < argumentos(l).len() implies sin_salto_y_no_vacio(#[trigger] argumentos(l)[i]) by {
        if i < e.args.len() {
            assert(argumentos(l)[i] == e.args[i]);
        }
    }
}

/// What the line splitter has read holds no line break inside a line.
pub open spec fn lineas_sanas(e: EstadoLineas) -> bool {
    &&& forall|i: int| 0 <= i < e.hechas.len() ==> !(#[trigger] e.hechas[i]).contains('\n')
    &&& !e.actual.contains('\n')
}

proof fn lema_recorrer_lineas_sanas(s: Seq<char>)
    ensures
        lineas_sanas(recorrer_lineas(lineas_inicial(), s)),
    decreases s.len(),
{
    if s.len() > 0 {
        let p = s.drop_last();
        lema_recorrer_lineas_sanas(p);
        let e = recorrer_lineas(lineas_inicial(), p);
        let c = s.last();
        if c == '\n' {
            let l = sin_retorno(e.actual);
            if e.actual.len() > 0 && e.actual.last() == '\r' {
                lema_prefijo_sin_salto(e.actual, e.actual.len() - 1);
                assert(l == e.actual.take(e.actual.len() - 1));
            }
            let e2 = paso_linea(e, c);
            assert forall|i: int| 0 <= i < e2.hechas.len() implies !(#[trigger] e2.hechas[i]).contains('\n') by {
                if i < e.hechas.len() {
                    assert(e2.hechas[i] == e.hechas[i]);
                }
            }
            assert(e2.actual == Seq::<char>::empty());
        } else {
            lema_push_sin_salto(e.actual, c);
        }
    }
}

/// No line of a text holds a line break.
pub proof fn lema_lineas_sanas(s: Seq<char>)
    ensures
        forall|i: int| 0 <= i < lineas(s).len() ==> !(#[trigger] lineas(s)[i]).contains('\n'),
{
    lema_recorrer_lineas_sanas(s);
    let e = recorrer_lineas(lineas_inicial(), s);
    assert forall|i: int| 0 <= i < lineas(s).len() implies !(#[trigger] lineas(s)[i]).contains('\n') by {
        if i < e.hechas.len() {
            assert(lineas(s)[i] == e.hechas[i]);
        }
    }
}

proof fn lema_cargar_data_sano(m: Mapa, ls: Seq<Seq<char>>)
    requires
        mapa_sin_saltos(m),
        forall|i: int| 0 <= i < ls.len() ==> !(#[trigger] ls[i]).contains('\n'),
    ensures
        cargar_data(m, ls) matches Ok(r) ==> mapa_sin_saltos(r),
    decreases ls.len(),
{
    if ls.len() > 0 {
        let p = ls.drop_last();
        assert(forall|i: int| 0 <= i < p.len() ==> p[i] == ls[i]);
        lema_cargar_data_sano(m, p);
        assert(ls[ls.len() - 1] == ls.last());
        lema_argumentos_sanos(ls.last());
        if let Ok(m2) = cargar_data(m, p) {
            let a = argumentos(ls.last());
            if a.len() == 2 {
                assert(sin_salto_y_no_vacio(a[0]) && sin_salto_y_no_vacio(a[1]));
            }
        }
    }
}

proof fn lema_cargar_log_sano(m: Mapa, ls: Seq<Seq<char>>)
    requires
        mapa_sin_saltos(m),
        forall|i: int| 0 <= i < ls.len() ==> !(#[trigger] ls[i]).contains('\n'),
    ensures
        cargar_log(m, ls) matches Ok(r) ==> mapa_sin_saltos(r),
    decreases ls.len(),
{
    if ls.len() > 0 {
        let p = ls.drop_last();
        assert(forall|i: int| 0 <= i < p.len() ==> p[i] == ls[i]);
        lema_cargar_log_sano(m, p);
        assert(ls[ls.len() - 1] == ls.last());
        lema_argumentos_sanos(ls.last());
        if let Ok(m2) = cargar_log(m, p) {
            let a = argumentos(ls.last());
            if a.len() == 3 {
                assert(sin_salto_y_no_vacio(a[1]) && sin_salto_y_no_vacio(a[2]));
            }
        }
    }
}

/// Every key and value of a state rebuilt from the files is not empty and has
/// no line break.
pub proof fn lema_estado_sin_saltos(data: ArchivoLeido, log: ArchivoLeido)
    ensures
        estado_de(data, log) matches Ok(m) ==> mapa_sin_saltos(m),
{
    if let ArchivoLeido::Contenido(t) = data {
        lema_lineas_sanas(t@);
        lema_cargar_data_sano(Map::empty(), lineas(t@));
    }
    if let Ok(m) = cargar_data_archivo(Map::empty(), data) {
        if let ArchivoLeido::Contenido(t) = log {
            lema_lineas_sanas(t@);
            lema_cargar_log_sano(m, lineas(t@));
        }
    }
}

/// No key or value of a map holds a `\`.
pub open spec fn mapa_sin_barras(m: Mapa) -> bool {
    forall|k: Seq<char>| #[trigger] m.contains_key(k) ==> !k.contains('\\') && !m[k].contains('\\')
}

/// A snapshot keeps the state of the store: the data-file text written for a
/// rebuilt state, read back beside an emptied log, rebuilds that same state,
/// whenever no key or value holds a `\`.
pub proof fn ley_snapshot_conserva_estado(
    data: ArchivoLeido,
    log: ArchivoLeido,
    s: Seq<Par>,
    datos: String,
    vacio: String,
)
    requires
        estado_de(data, log) matches Ok(m) && mapa_sin_barras(m) && mapa_de(s) == m,
        claves_unicas(s),
        datos@ == contenido_snapshot(s),
        vacio@.len() == 0,
    ensures
        estado_de(ArchivoLeido::Contenido(datos), ArchivoLeido::Contenido(vacio)) == estado_de(data, log),
{
    lema_estado_sin_saltos(data, log);
    let m = mapa_de(s);
    assert(mapa_almacenable(m));
    ley_snapshot_conserva(m, s, datos, vacio);
}

/// Two maps agree on a key: both lack it, or both hold the same value under it.
pub open spec fn igual_en(a: Mapa, b: Mapa, k: Seq<char>) -> bool {
    &&& a.contains_key(k) <==> b.contains_key(k)
    &&& a.contains_key(k) ==> a[k] == b[k]
}

/// Some line of the log sets or removes the key `k`.
pub open spec fn toca(ls: Seq<Seq<char>>, k: Seq<char>) -> bool {
    exists|i: int| 0 <= i < ls.len() && argumentos(#[trigger] ls[i])[1] == k
}

/// Whether a log can be applied does not depend on the map it is applied to;
/// keys that no line touches keep their entries, and touched keys end the same
/// whatever the map was.
proof fn lema_log_efecto(m1: Mapa, m2: Mapa, ls: Seq<Seq<char>>)
    requires
        cargar_log(m1, ls) is Ok,
    ensures
        cargar_log(m2, ls) is Ok,
        forall|k: Seq<char>| !toca(ls, k) ==> #[trigger] igual_en(cargar_log(m1, ls)->Ok_0, m1, k),
        forall|k: Seq<char>| toca(ls, k) ==> #[trigger] igual_en(
            cargar_log(m1, ls)->Ok_0,
            cargar_log(m2, ls)->Ok_0,
            k,
        ),
    decreases ls.len(),
{
    if ls.len() > 0 {
        let p = ls.drop_last();
        let l = ls.last();
        assert(cargar_log(m1, p) is Ok);
        lema_log_efecto(m1, m2, p);
        let a1 = cargar_log(m1, p)->Ok_0;
        let a2 = cargar_log(m2, p)->Ok_0;
        let r1 = cargar_log(m1, ls)->Ok_0;
        let r2 = cargar_log(m2, ls)->Ok_0;
        let c = argumentos(l)[1];
        assert(ls[ls.len() - 1] == l);
        assert forall|k: Seq<char>| !toca(ls, k) implies #[trigger] igual_en(r1, m1, k) by {
            if toca(p, k) {
                let i = choose|i: int| 0 <= i < p.len() && argumentos(#[trigger] p[i])[1] == k;
                assert(ls[i] == p[i]);
            }
            assert(k != c);
            assert(igual_en(a1, m1, k));
        }
        assert forall|k: Seq<char>| toca(ls, k) implies #[trigger] igual_en(r1, r2, k) by {
            if k != c {
                let i = choose|i: int| 0 <= i < ls.len() && argumentos(#[trigger] ls[i])[1] == k;
                assert(i != ls.len() - 1);
                assert(p[i] == ls[i]);
                assert(toca(p, k));
                assert(igual_en(a1, a2, k));
            }
        }
    }
}

/// Applying a log a second time changes nothing.
pub proof fn lema_log_idempotente(m: Mapa, ls: Seq<Seq<char>>)
    requires
        cargar_log(m, ls) is Ok,
    ensures
        cargar_log(cargar_log(m, ls)->Ok_0, ls) == cargar_log(m, ls),
{
    let r = cargar_log(m, ls)->Ok_0;
    lema_log_efecto(m, r, ls);
    lema_log_efecto(r, r, ls);
    let r2 = cargar_log(r, ls)->Ok_0;
    assert forall|k: Seq<char>| #[trigger] r2.contains_key(k) <==> r.contains_key(k) by {
        if toca(ls, k) {
            assert(igual_en(r, r2, k));
        } else {
            assert(igual_en(r2, r, k));
        }
    }
    assert forall|k: Seq<char>| #[trigger] r2.contains_key(k) implies r2[k] == r[k] by {
        if toca(ls, k) {
            assert(igual_en(r, r2, k));
        } else {
            assert(igual_en(r2, r, k));
        }
    }
    assert(r2 =~= r);
}

/// Nothing is lost if a snapshot fails after writing the data file but before
/// emptying the log: the new data file with the old log still rebuilds the
/// same state, whenever no key or value holds a `\`.
pub proof fn ley_snapshot_sin_vaciar_log(data: ArchivoLeido, log: ArchivoLeido, s: Seq<Par>, datos: String)
    requires
        estado_de(data, log) matches Ok(m) && mapa_sin_barras(m) && mapa_de(s) == m,
        claves_unicas(s),
        datos@ == contenido_snapshot(s),
    ensures
        estado_de(ArchivoLeido::Contenido(datos), log) == estado_de(data, log),
{
    lema_estado_sin_saltos(data, log);
    let m = mapa_de(s);
    assert(mapa_almacenable(m));
    assert forall|i: int| 0 <= i < s.len() implies par_almacenable(#[trigger] s[i]) by {
        lema_valor(s, i);
    }
    lema_lineas_snapshot(s);
    lema_cargar_pares(s);
    assert(cargar_data_archivo(Map::empty(), ArchivoLeido::Contenido(datos)) == Ok::<
        Mapa,
        crate::errores::ErrorMiniKv,
    >(m));
    if let ArchivoLeido::Contenido(t) = log {
        let m0 = cargar_data_archivo(Map::empty(), data)->Ok_0;
        assert(cargar_log(m0, lineas(t@)) == Ok::<Mapa, crate::errores::ErrorMiniKv>(m));
        lema_log_idempotente(m0, lineas(t@));
    }
}

/// The text an operation appends to the log: its log line, or nothing.
pub open spec fn texto_de_registro(c: ComandoVista) -> Seq<char> {
    match linea_de_registro(c) {
        Some(l) => l,
        None => Seq::empty(),
    }
}

/// The text that a sequence of operations appends to the log, in order.
pub open spec fn registro_de(cs: Seq<ComandoVista>) -> Seq<char>
    decreases cs.len(),
{
    if cs.len() == 0 {
        Seq::empty()
    } else {
        registro_de(cs.drop_last()) + texto_de_registro(cs.last())
    }
}

/// The server serving the operations `cs` in order from a store holding `m0`:
/// the store it leaves, and what it does for each operation, each computed on
/// the store that the operations before it left.
pub open spec fn correr(m0: Mapa, cs: Seq<ComandoVista>) -> (Mapa, Seq<AccionVista>)
    decreases cs.len(),
{
    if cs.len() == 0 {
        (m0, Seq::empty())
    } else {
        let (m, salidas) = correr(m0, cs.drop_last());
        (efecto_en_memoria(m, cs.last()), salidas.push(salida_esperada(m, cs.last())))
    }
}

/// Over any sequence of operations, each gets exactly one action, and the
/// action of the `i`-th is computed on the store left by the ones before it.
pub proof fn ley_secuencia_de_peticiones(m0: Mapa, cs: Seq<ComandoVista>, i: int)
    requires
        0 <= i < cs.len(),
    ensures
        correr(m0, cs).1.len() == cs.len(),
        correr(m0, cs).1[i] == salida_esperada(correr(m0, cs.take(i)).0, cs[i]),
    decreases cs.len(),
{
    let p = cs.drop_last();
    assert(cs.last() == cs[cs.len() - 1]);
    if p.len() > 0 {
        let j = if i < p.len() { i } else { 0 };
        ley_secuencia_de_peticiones(m0, p, j);
    } else {
        assert(correr(m0, p).1 == Seq::<AccionVista>::empty());
    }
    if i == cs.len() - 1 {
        assert(cs.take(i) == p);
    } else {
        assert(p.take(i) == cs.take(i));
        assert(p[i] == cs[i]);
    }
}

/// One operation's log text, appended to a log that applies cleanly, applies
/// to the same effect as the operation has on the store.
proof fn lema_registro_texto(m0: Mapa, a: Seq<char>, m: Mapa, c: ComandoVista)
    requires
        cargar_log(m0, lineas(a)) == Ok::<Mapa, crate::errores::ErrorMiniKv>(m),
        termina_en_salto(a),
        comando_almacenable(c),
    ensures
        cargar_log(m0, lineas(a + texto_de_registro(c))) == Ok::<Mapa, crate::errores::ErrorMiniKv>(
            efecto_en_memoria(m, c),
        ),
        termina_en_salto(a + texto_de_registro(c)),
{
    match c {
        ComandoVista::Asignar(k, v) => {
            let l = linea_set(k, v).drop_last();
            lema_linea_set_es_una_linea(k, v);
            assert(a + linea_set(k, v) == a + l + seq!['\n']);
            lema_lineas_agregar(a, l);
            lema_argumentos_set(k, v);
            assert(tipo_de(texto_set()) is Some);
            assert(lineas(a + linea_set(k, v)).drop_last() == lineas(a));
        },
        ComandoVista::Unset(k) => {
            let l = linea_unset(k).drop_last();
            lema_linea_unset_es_una_linea(k);
            assert(a + linea_unset(k) == a + l + seq!['\n']);
            lema_lineas_agregar(a, l);
            lema_argumentos_unset(k);
            assert(tipo_de(texto_set()) is Some);
            assert(lineas(a + linea_unset(k)).drop_last() == lineas(a));
        },
        _ => {
            assert(a + texto_de_registro(c) == a);
        },
    }
}

proof fn lema_registro_secuencia(m0: Mapa, a: Seq<char>, m: Mapa, cs: Seq<ComandoVista>)
    requires
        cargar_log(m0, lineas(a)) == Ok::<Mapa, crate::errores::ErrorMiniKv>(m),
        termina_en_salto(a),
        forall|i: int| 0 <= i < cs.len() ==> comando_almacenable(#[trigger] cs[i]),
    ensures
        cargar_log(m0, lineas(a + registro_de(cs))) == Ok::<Mapa, crate::errores::ErrorMiniKv>(correr(m, cs).0),
        termina_en_salto(a + registro_de(cs)),
    decreases cs.len(),
{
    if cs.len() == 0 {
        assert(a + registro_de(cs) == a);
    } else {
        let p = cs.drop_last();
        assert(forall|i: int| 0 <= i < p.len() ==> p[i] == cs[i]);
        lema_registro_secuencia(m0, a, m, p);
        assert(cs[cs.len() - 1] == cs.last());
        lema_registro_texto(m0, a + registro_de(p), correr(m, p).0, cs.last());
        assert(a + registro_de(p) + texto_de_registro(cs.last()) == a + registro_de(cs));
    }
}

/// The server's store in memory keeps matching its files over any sequence of
/// operations: if the files rebuild the store before, then after the log texts
/// of all the operations are appended in order they rebuild the store that
/// serving those operations leaves.
pub proof fn ley_secuencia_memoria_archivos(
    data: ArchivoLeido,
    antes: String,
    despues: String,
    m0: Mapa,
    cs: Seq<ComandoVista>,
)
    requires
        estado_de(data, ArchivoLeido::Contenido(antes)) == Ok::<Mapa, crate::errores::ErrorMiniKv>(m0),
        termina_en_salto(antes@),
        forall|i: int| 0 <= i < cs.len() ==> comando_almacenable(#[trigger] cs[i]),
        despues@ == antes@ + registro_de(cs),
    ensures
        estado_de(data, ArchivoLeido::Contenido(despues)) == Ok::<Mapa, crate::errores::ErrorMiniKv>(
            correr(m0, cs).0,
        ),
{
    let md = cargar_data_archivo(Map::empty(), data)->Ok_0;
    lema_registro_secuencia(md, antes@, m0, cs);
}

/// Serving a `set` or a removal logs it whatever the store holds: the action
/// does not depend on the store, and it is the appending of a log text that,
/// read back after any log that applies cleanly, has exactly the operation's
/// effect (a removal of an absent key included).
pub proof fn ley_registro_no_depende_del_estado(
    mem1: Mapa,
    mem2: Mapa,
    m0: Mapa,
    a: Seq<char>,
    m: Mapa,
    c: ComandoVista,
)
    requires
        c is Asignar || c is Unset,
        cargar_log(m0, lineas(a)) == Ok::<Mapa, ErrorMiniKv>(m),
        termina_en_salto(a),
        comando_almacenable(c),
    ensures
        salida_esperada(mem1, c) == salida_esperada(mem2, c),
        salida_esperada(mem1, c) matches AccionVista::Registrar(l) && cargar_log(m0, lineas(a + l)) == Ok::<
            Mapa,
            ErrorMiniKv,
        >(efecto_en_memoria(m, c)),
{
    lema_registro_texto(m0, a, m, c);
}

/// The name of each command kind.
pub open spec fn nombre_de(t: TipoComando) -> Seq<char> {
    match t {
        TipoComando::Asignar => texto_set(),
        TipoComando::Get => texto_get(),
        TipoComando::Length => texto_length(),
        TipoComando::Snapshot => texto_snapshot(),
    }
}

/// A word names a command exactly when it is that command's name: the four
/// names `set`, `get`, `length`, `snapshot` are read as their commands, and
/// every other word is not a command.
pub proof fn ley_nombres_de_comandos(s: Seq<char>, t: TipoComando)
    ensures
        tipo_de(nombre_de(t)) == Some(t),
        tipo_de(s) matches Some(u) ==> s == nombre_de(u),
        (s != texto_set() && s != texto_get() && s != texto_length() && s != texto_snapshot()) ==> tipo_de(s)
            is None,
{
    assert(texto_set() != texto_get()) by {
        assert(texto_set()[0] != texto_get()[0]);
    }
    assert(texto_set() != texto_length() && texto_get() != texto_length() && texto_snapshot() != texto_length()) by {
        assert(texto_length().len() == 6);
    }
    assert(texto_set() != texto_snapshot() && texto_get() != texto_snapshot()) by {
        assert(texto_snapshot().len() == 8);
    }
}

/// The words that make an operation: the command's name and its arguments.
pub open spec fn palabras_de_comando(c: ComandoVista) -> Seq<Seq<char>> {
    match c {
        ComandoVista::Asignar(k, v) => seq![texto_set(), k, v],
        ComandoVista::Unset(k) => seq![texto_set(), k],
        ComandoVista::Get(k) => seq![texto_get(), k],
        ComandoVista::Length => seq![texto_length()],
        ComandoVista::Snapshot => seq![texto_snapshot()],
    }
}

/// A request makes an operation only when its words are exactly the
/// command's name followed by the arguments of that operation, and those
/// words always make it: no word is ignored and none is invented.
pub proof fn ley_palabras_exactas(ps: Seq<Seq<char>>, c: ComandoVista)
    ensures
        comando_de_palabras(palabras_de_comando(c)) == Ok::<ComandoVista, ErrorMiniKv>(c),
        comando_de_palabras(ps) matches Ok(d) ==> ps == palabras_de_comando(d),
{
    ley_nombres_de_comandos(texto_set(), TipoComando::Asignar);
    ley_nombres_de_comandos(texto_get(), TipoComando::Get);
    ley_nombres_de_comandos(texto_length(), TipoComando::Length);
    ley_nombres_de_comandos(texto_snapshot(), TipoComando::Snapshot);
    if ps.len() > 0 {
        ley_nombres_de_comandos(ps[0], TipoComando::Asignar);
    }
    if let Ok(d) = comando_de_palabras(ps) {
        assert(ps =~= palabras_de_comando(d));
    }
}

/// `get` takes exactly one argument: it succeeds only with a key and nothing
/// after it, and any value argument makes it an `ExtraArgument` error.
pub proof fn ley_get_un_argumento(
    clave: Option<Seq<char>>,
    valor: Option<Seq<char>>,
    extra: Option<Seq<char>>,
)
    ensures
        comando_esperado(TipoComando::Get, clave, valor, extra) is Ok <==> (clave is Some && valor is None
            && extra is None),
        valor is Some ==> comando_esperado(TipoComando::Get, clave, valor, extra) == Err::<
            ComandoVista,
            ErrorMiniKv,
        >(ErrorMiniKv::ExtraArgument),
{
}

/// The line sent for a value answer is exactly the characters of the value
/// followed by one line break.
pub proof fn ley_respuesta_valor(v: String)
    ensures
        texto_de_respuesta(Respuesta::Valor(v)) == v@ + seq!['\n'],
{
}

/// The number that a digit stands for.
pub open spec fn valor_de_digito(c: char) -> int {
    (c as u32) - ('0' as u32)
}

/// The number that a text of decimal digits stands for.
pub open spec fn leer_decimal(s: Seq<char>) -> int
    decreases s.len(),
{
    if s.len() == 0 {
        0
    } else {
        leer_decimal(s.drop_last()) * 10 + valor_de_digito(s.last())
    }
}

proof fn lema_digito(d: int)
    requires
        0 <= d < 10,
    ensures
        valor_de_digito(digitos()[d]) == d,
        '0' <= digitos()[d] <= '9',
{
    assert(digitos()[0] == '0' && digitos()[1] == '1' && digitos()[2] == '2' && digitos()[3] == '3');
    assert(digitos()[4] == '4' && digitos()[5] == '5' && digitos()[6] == '6' && digitos()[7] == '7');
    assert(digitos()[8] == '8' && digitos()[9] == '9');
}

/// The decimal writing of a number is made of digits, has no leading zero,
/// and read back gives the number itself.
pub proof fn ley_decimal(n: nat)
    ensures
        leer_decimal(decimal(n)) == n,
        decimal(n).len() > 0,
        forall|i: int| 0 <= i < decimal(n).len() ==> '0' <= #[trigger] decimal(n)[i] <= '9',
        n > 0 ==> decimal(n)[0] != '0',
    decreases n,
{
    if n < 10 {
        lema_digito(n as int);
        assert(decimal(n) == seq![digitos()[n as int]]);
        assert(decimal(n).drop_last() == Seq::<char>::empty());
        assert(decimal(n).last() == digitos()[n as int]);
        assert(leer_decimal(Seq::<char>::empty()) == 0);
        assert(leer_decimal(decimal(n)) == 0 * 10 + valor_de_digito(digitos()[n as int]));
    } else {
        let q = n / 10;
        let r = n % 10;
        ley_decimal(q);
        lema_digito(r as int);
        let s = decimal(q);
        assert(decimal(n) == s.push(digitos()[r as int]));
        assert(decimal(n).drop_last() == s);
        assert(q * 10 + r == n) by (nonlinear_arith)
            requires
                q == n / 10,
                r == n % 10,
        ;
        assert(q > 0);
        assert(decimal(n).last() == digitos()[r as int]);
        assert(leer_decimal(decimal(n)) == leer_decimal(s) * 10 + valor_de_digito(digitos()[r as int]));
        assert(decimal(n)[0] == s[0]);
        assert forall|i: int| 0 <= i < decimal(n).len() implies '0' <= #[trigger] decimal(n)[i] <= '9' by {
            if i < s.len() {
                assert(decimal(n)[i] == s[i]);
            }
        }
    }
}

} // verus!
