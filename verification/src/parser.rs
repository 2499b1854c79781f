use vstd::prelude::*;
use crate::texto::agregar_caracter;

verus! {

/// The state of the argument splitter after reading part of a line.
pub struct EstadoSeparador {
    /// Arguments completed so far.
    pub args: Seq<Seq<char>>,
    /// The argument being read.
    pub actual: Seq<char>,
    /// Whether an opening `"` has not been closed yet.
    pub en_comillas: bool,
    /// Whether the previous character was an unescaped `\`.
    pub escape: bool,
}

pub open spec fn estado_inicial() -> EstadoSeparador {
    EstadoSeparador { args: Seq::empty(), actual: Seq::empty(), en_comillas: false, escape: false }
}

/// How the splitter reacts to one character.
pub open spec fn paso(e: EstadoSeparador, c: char) -> EstadoSeparador {
    if e.escape {
        EstadoSeparador { actual: e.actual.push(c), escape: false, ..e }
    } else if c == '\\' {
        EstadoSeparador { escape: true, ..e }
    } else if c == '"' {
        EstadoSeparador { en_comillas: !e.en_comillas, ..e }
    } else if c == ' ' && !e.en_comillas {
        if e.actual.len() > 0 {
            EstadoSeparador { args: e.args.push(e.actual), actual: Seq::empty(), ..e }
        } else {
            e
        }
    } else {
        EstadoSeparador { actual: e.actual.push(c), ..e }
    }
}

/// The state after reading all of `s`, starting from `e`.
pub open spec fn recorrer(e: EstadoSeparador, s: Seq<char>) -> EstadoSeparador
    decreases s.len(),
{
    if s.len() == 0 {
        e
    } else {
        paso(recorrer(e, s.drop_last()), s.last())
    }
}

/// The arguments once the line has ended: a pending non-empty argument is kept.
pub open spec fn cerrar(e: EstadoSeparador) -> Seq<Seq<char>> {
    if e.actual.len() > 0 {
        e.args.push(e.actual)
    } else {
        e.args
    }
}

/// The arguments of a line: split at spaces outside quotes, quotes removed,
/// and every character after a `\` taken literally.
pub open spec fn argumentos(s: Seq<char>) -> Seq<Seq<char>> {
    cerrar(recorrer(estado_inicial(), s))
}

/// Splits a line into arguments, honouring quotes and `\` escapes.
pub fn separar_argumentos(texto: &str) -> (r: Vec<String>)
    ensures
        r.deep_view() == argumentos(texto@),
{
    let mut args: Vec<String> = Vec::new();
    let mut actual = String::new();
    let mut en_comillas = false;
    let mut escape = false;
    let ghost s = texto@;
    for c in it: texto.chars()
        invariant
            it.seq() == s,
            ({
                let e = recorrer(estado_inicial(), s.take(it.index()));
                &&& args.deep_view() == e.args
                &&& actual@ == e.actual
                &&& en_comillas == e.en_comillas
                &&& escape == e.escape
            }),
    {
        assert(s.take(it.index() + 1).drop_last() == s.take(it.index()));
        if escape {
            agregar_caracter(&mut actual, c);
            escape = false;
        } else if c == '\\' {
            escape = true;
        } else if c == '"' {
            en_comillas = !en_comillas;
        } else if c == ' ' && !en_comillas {
            if !actual.as_str().is_empty() {
                args.push(actual);
                actual = String::new();
            }
        } else {
            agregar_caracter(&mut actual, c);
        }
    }
    assert(s.take(s.len() as int) == s);
    if !actual.as_str().is_empty() {
        args.push(actual);
    }
    args
}

/// How one character is written inside a quoted argument: `"` gets a `\` before it.
pub open spec fn escapar_caracter(c: char) -> Seq<char> {
    if c == '"' {
        seq!['\\', '"']
    } else {
        seq![c]
    }
}

/// The characters of `t` with every `"` escaped.
pub open spec fn escapar(t: Seq<char>) -> Seq<char>
    decreases t.len(),
{
    if t.len() == 0 {
        Seq::empty()
    } else {
        escapar(t.drop_last()) + escapar_caracter(t.last())
    }
}

/// The serialized form of a text: its escaped characters between quotes.
pub open spec fn serializado(t: Seq<char>) -> Seq<char> {
    seq!['"'] + escapar(t) + seq!['"']
}

/// Serializes a text so that it can be written to the data or log file:
/// every `"` gets a `\` before it and the whole text is put between quotes.
pub fn serializar(texto: &str) -> (r: String)
    ensures
        r@ == serializado(texto@),
{
    let mut resultado = String::new();
    agregar_caracter(&mut resultado, '"');
    let ghost s = texto@;
    for c in it: texto.chars()
        invariant
            it.seq() == s,
            resultado@ == seq!['"'] + escapar(s.take(it.index())),
    {
        assert(s.take(it.index() + 1).drop_last() == s.take(it.index()));
        if c == '"' {
            agregar_caracter(&mut resultado, '\\');
        }
        agregar_caracter(&mut resultado, c);
        assert(resultado@ == seq!['"'] + escapar(s.take(it.index() + 1)));
    }
    assert(s.take(s.len() as int) == s);
    agregar_caracter(&mut resultado, '"');
    resultado
}

/// Reading `a + b` is reading `a`, then reading `b` from where `a` left off.
pub proof fn lema_recorrer_concatenacion(e: EstadoSeparador, a: Seq<char>, b: Seq<char>)
    ensures
        recorrer(e, a + b) == recorrer(recorrer(e, a), b),
    decreases b.len(),
{
    if b.len() == 0 {
        assert(a + b == a);
    } else {
        lema_recorrer_concatenacion(e, a, b.drop_last());
        assert((a + b).drop_last() == a + b.drop_last());
        assert((a + b).last() == b.last());
    }
}

/// Reading a single character is one step of the splitter.
pub proof fn lema_recorrer_uno(e: EstadoSeparador, c: char)
    ensures
        recorrer(e, seq![c]) == paso(e, c),
{
    assert(seq![c].drop_last() == Seq::<char>::empty());
    assert(seq![c].last() == c);
    assert(recorrer(e, Seq::<char>::empty()) == e);
}

/// Inside quotes, the escaped form of a text without `\` adds exactly that text
/// to the argument being read.
pub proof fn lema_escapar_en_comillas(e: EstadoSeparador, t: Seq<char>)
    requires
        e.en_comillas,
        !e.escape,
        !t.contains('\\'),
    ensures
        recorrer(e, escapar(t)) == (EstadoSeparador { actual: e.actual + t, ..e }),
    decreases t.len(),
{
    if t.len() == 0 {
        assert(e.actual + t == e.actual);
        assert(escapar(t) == Seq::<char>::empty());
        assert(recorrer(e, escapar(t)) == e);
    } else {
        let p = t.drop_last();
        let c = t.last();
        assert(!p.contains('\\')) by {
            if p.contains('\\') {
                let i = choose|i: int| 0 <= i < p.len() && p[i] == '\\';
                assert(t[i] == '\\');
            }
        }
        assert(c != '\\') by {
            assert(t[t.len() - 1] == c);
        }
        lema_escapar_en_comillas(e, p);
        lema_recorrer_concatenacion(e, escapar(p), escapar_caracter(c));
        let m = EstadoSeparador { actual: e.actual + p, ..e };
        assert((e.actual + p).push(c) == e.actual + p + seq![c]);
        assert(recorrer(e, escapar(p)) == m);
        if c == '"' {
            assert(escapar_caracter(c) == seq!['\\'] + seq!['"']);
            lema_recorrer_concatenacion(m, seq!['\\'], seq!['"']);
            lema_recorrer_uno(m, '\\');
            let m1 = EstadoSeparador { escape: true, ..m };
            lema_recorrer_uno(m1, '"');
        } else {
            lema_recorrer_uno(m, c);
        }
        assert(e.actual + p + seq![c] == e.actual + t);
        assert(escapar(t) == escapar(p) + escapar_caracter(c));
        assert(recorrer(e, escapar(t)) == recorrer(m, escapar_caracter(c)));
        assert(recorrer(m, escapar_caracter(c)) == (EstadoSeparador { actual: e.actual + p + seq![c], ..e }));
    }
}

/// Outside quotes, a serialized text without `\` adds exactly that text to the
/// argument being read, and leaves the reader outside quotes.
pub proof fn lema_serializado(e: EstadoSeparador, t: Seq<char>)
    requires
        !e.en_comillas,
        !e.escape,
        !t.contains('\\'),
    ensures
        recorrer(e, serializado(t)) == (EstadoSeparador { actual: e.actual + t, ..e }),
{
    let abre = EstadoSeparador { en_comillas: true, ..e };
    lema_recorrer_uno(e, '"');
    lema_recorrer_concatenacion(e, seq!['"'], escapar(t));
    lema_escapar_en_comillas(abre, t);
    let lleno = EstadoSeparador { actual: e.actual + t, ..abre };
    lema_recorrer_concatenacion(e, seq!['"'] + escapar(t), seq!['"']);
    lema_recorrer_uno(lleno, '"');
}

/// Splitting a serialized text gives back the text itself, for every non-empty
/// text without `\`.
pub proof fn ley_separar_serializado(t: Seq<char>)
    requires
        t.len() > 0,
        !t.contains('\\'),
    ensures
        argumentos(serializado(t)) == seq![t],
{
    lema_serializado(estado_inicial(), t);
    assert(Seq::<char>::empty() + t == t);
}

/// The pieces of a text between its spaces, in order, empty pieces included.
pub open spec fn trozos(s: Seq<char>) -> Seq<Seq<char>>
    decreases s.len(),
{
    if s.len() == 0 {
        seq![Seq::empty()]
    } else {
        let t = trozos(s.drop_last());
        if s.last() == ' ' {
            t.push(Seq::empty())
        } else {
            t.update(t.len() - 1, t.last().push(s.last()))
        }
    }
}

/// The non-empty pieces of a list, in order.
pub open spec fn no_vacios(ss: Seq<Seq<char>>) -> Seq<Seq<char>>
    decreases ss.len(),
{
    if ss.len() == 0 {
        Seq::empty()
    } else if ss.last().len() > 0 {
        no_vacios(ss.drop_last()).push(ss.last())
    } else {
        no_vacios(ss.drop_last())
    }
}

/// The words of a text: its non-empty pieces between spaces.
pub open spec fn palabras(s: Seq<char>) -> Seq<Seq<char>> {
    no_vacios(trozos(s))
}

proof fn lema_trozos_no_vacio(s: Seq<char>)
    ensures
        trozos(s).len() >= 1,
    decreases s.len(),
{
    if s.len() > 0 {
        lema_trozos_no_vacio(s.drop_last());
    }
}

/// Without quotes or `\`, the splitter has completed the non-empty pieces
/// before the last space and is reading the last piece.
proof fn lema_recorrer_sin_comillas(s: Seq<char>)
    requires
        !s.contains('"'),
        !s.contains('\\'),
    ensures
        recorrer(estado_inicial(), s) == (EstadoSeparador {
            args: no_vacios(trozos(s).drop_last()),
            actual: trozos(s).last(),
            en_comillas: false,
            escape: false,
        }),
    decreases s.len(),
{
    lema_trozos_no_vacio(s);
    if s.len() == 0 {
        assert(trozos(s).drop_last() == Seq::<Seq<char>>::empty());
    } else {
        let p = s.drop_last();
        let c = s.last();
        assert(s[s.len() - 1] == c);
        assert(forall|i: int| 0 <= i < p.len() ==> p[i] == s[i]);
        assert(!p.contains('"') && !p.contains('\\'));
        lema_recorrer_sin_comillas(p);
        lema_trozos_no_vacio(p);
        let t = trozos(p);
        if c == ' ' {
            assert(trozos(s).drop_last() == t);
            assert(t == t.drop_last().push(t.last()));
        } else {
            let u = t.update(t.len() - 1, t.last().push(c));
            assert(u.drop_last() == t.drop_last());
        }
    }
}

/// Without quotes or `\`, splitting a text into arguments is taking its words:
/// only spaces separate, and empty pieces are dropped.
pub proof fn ley_separar_sin_comillas(s: Seq<char>)
    requires
        !s.contains('"'),
        !s.contains('\\'),
    ensures
        argumentos(s) == palabras(s),
{
    lema_recorrer_sin_comillas(s);
    lema_trozos_no_vacio(s);
    let t = trozos(s);
    assert(t == t.drop_last().push(t.last()));
}

} // verus!
