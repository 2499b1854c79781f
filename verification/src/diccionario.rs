use vstd::prelude::*;
use crate::texto::textos_iguales;

verus! {

/// A key and its value, as character sequences.
pub type Par = (Seq<char>, Seq<char>);

/// The map that results from inserting the pairs of `s` in order.
pub open spec fn mapa_de(s: Seq<Par>) -> Map<Seq<char>, Seq<char>>
    decreases s.len(),
{
    if s.len() == 0 {
        Map::empty()
    } else {
        mapa_de(s.drop_last()).insert(s.last().0, s.last().1)
    }
}

/// No key occurs twice in `s`.
pub open spec fn claves_unicas(s: Seq<Par>) -> bool {
    forall|i: int, j: int| 0 <= i < j < s.len() ==> s[i].0 != s[j].0
}

/// The keys of `mapa_de(s)` are exactly the keys that occur in `s`.
pub proof fn lema_dominio(s: Seq<Par>, k: Seq<char>)
    ensures
        mapa_de(s).dom().finite(),
        mapa_de(s).contains_key(k) <==> exists|i: int| 0 <= i < s.len() && s[i].0 == k,
    decreases s.len(),
{
    if s.len() > 0 {
        let p = s.drop_last();
        lema_dominio(p, k);
        if mapa_de(s).contains_key(k) {
            if k == s.last().0 {
                assert(s[s.len() - 1].0 == k);
            } else {
                let i = choose|i: int| 0 <= i < p.len() && p[i].0 == k;
                assert(s[i].0 == k);
            }
        }
        if exists|i: int| 0 <= i < s.len() && s[i].0 == k {
            let i = choose|i: int| 0 <= i < s.len() && s[i].0 == k;
            if i < s.len() - 1 {
                assert(p[i].0 == k);
            }
        }
    }
}

/// With unique keys, the map holds the value of each pair under its key.
pub proof fn lema_valor(s: Seq<Par>, i: int)
    requires
        claves_unicas(s),
        0 <= i < s.len(),
    ensures
        mapa_de(s).contains_key(s[i].0),
        mapa_de(s)[s[i].0] == s[i].1,
    decreases s.len(),
{
    if i < s.len() - 1 {
        let p = s.drop_last();
        assert(claves_unicas(p));
        assert(p[i] == s[i]);
        lema_valor(p, i);
        assert(s[i].0 != s[s.len() - 1].0);
    }
}

/// With unique keys, the map has as many keys as `s` has pairs.
pub proof fn lema_tamano(s: Seq<Par>)
    requires
        claves_unicas(s),
    ensures
        mapa_de(s).dom().finite(),
        mapa_de(s).dom().len() == s.len(),
    decreases s.len(),
{
    lema_dominio(s, Seq::empty());
    if s.len() > 0 {
        let p = s.drop_last();
        assert(claves_unicas(p));
        lema_tamano(p);
        lema_dominio(p, s.last().0);
        if mapa_de(p).contains_key(s.last().0) {
            let i = choose|i: int| 0 <= i < p.len() && p[i].0 == s.last().0;
            assert(s[i].0 == s[s.len() - 1].0);
        }
    }
}

/// Replacing the value of a pair replaces the value under its key.
pub proof fn lema_actualizar(s: Seq<Par>, i: int, v: Seq<char>)
    requires
        claves_unicas(s),
        0 <= i < s.len(),
    ensures
        claves_unicas(s.update(i, (s[i].0, v))),
        mapa_de(s.update(i, (s[i].0, v))) == mapa_de(s).insert(s[i].0, v),
{
    let t = s.update(i, (s[i].0, v));
    assert(claves_unicas(t)) by {
        assert forall|a: int, b: int| 0 <= a < b < t.len() implies t[a].0 != t[b].0 by {
            assert(t[a].0 == s[a].0 && t[b].0 == s[b].0);
        }
    }
    let izq = mapa_de(t);
    let der = mapa_de(s).insert(s[i].0, v);
    assert forall|k: Seq<char>| #[trigger] izq.contains_key(k) <==> der.contains_key(k) by {
        lema_dominio(t, k);
        lema_dominio(s, k);
        if exists|j: int| 0 <= j < t.len() && t[j].0 == k {
            let j = choose|j: int| 0 <= j < t.len() && t[j].0 == k;
            assert(s[j].0 == k);
        }
        if exists|j: int| 0 <= j < s.len() && s[j].0 == k {
            let j = choose|j: int| 0 <= j < s.len() && s[j].0 == k;
            assert(t[j].0 == k);
        }
    }
    assert forall|k: Seq<char>| #[trigger] izq.contains_key(k) implies izq[k] == der[k] by {
        lema_dominio(t, k);
        let j = choose|j: int| 0 <= j < t.len() && t[j].0 == k;
        lema_valor(t, j);
        if j != i {
            assert(t[j] == s[j]);
            lema_valor(s, j);
        }
    }
    assert(izq =~= der);
}

/// Taking a pair out removes its key, and nothing else.
pub proof fn lema_quitar(s: Seq<Par>, i: int)
    requires
        claves_unicas(s),
        0 <= i < s.len(),
    ensures
        claves_unicas(s.remove(i)),
        mapa_de(s.remove(i)) == mapa_de(s).remove(s[i].0),
{
    let t = s.remove(i);
    assert(forall|j: int| 0 <= j < i ==> t[j] == s[j]);
    assert(forall|j: int| i <= j < t.len() ==> t[j] == s[j + 1]);
    assert(claves_unicas(t)) by {
        assert forall|a: int, b: int| 0 <= a < b < t.len() implies t[a].0 != t[b].0 by {
            let a2 = if a < i { a } else { a + 1 };
            let b2 = if b < i { b } else { b + 1 };
            assert(t[a] == s[a2] && t[b] == s[b2]);
        }
    }
    let izq = mapa_de(t);
    let der = mapa_de(s).remove(s[i].0);
    assert forall|k: Seq<char>| #[trigger] izq.contains_key(k) <==> der.contains_key(k) by {
        lema_dominio(t, k);
        lema_dominio(s, k);
        if exists|j: int| 0 <= j < t.len() && t[j].0 == k {
            let j = choose|j: int| 0 <= j < t.len() && t[j].0 == k;
            let j2 = if j < i { j } else { j + 1 };
            assert(s[j2].0 == k);
            assert(j2 != i);
        }
        if der.contains_key(k) {
            let j = choose|j: int| 0 <= j < s.len() && s[j].0 == k;
            assert(j != i);
            let j2 = if j < i { j } else { j - 1 };
            assert(t[j2].0 == k);
        }
    }
    assert forall|k: Seq<char>| #[trigger] izq.contains_key(k) implies izq[k] == der[k] by {
        lema_dominio(t, k);
        let j = choose|j: int| 0 <= j < t.len() && t[j].0 == k;
        lema_valor(t, j);
        let j2 = if j < i { j } else { j + 1 };
        lema_valor(s, j2);
    }
    assert(izq =~= der);
}

/// The pairs held by a list of `String` pairs.
pub open spec fn vista_pares(v: Seq<(String, String)>) -> Seq<Par> {
    v.map_values(|p: (String, String)| (p.0@, p.1@))
}

/// A dictionary of text keys and values, kept as a list of pairs with no key twice.
pub struct Diccionario {
    pares: Vec<(String, String)>,
}

impl Diccionario {
    /// The pairs of the dictionary, in the order in which their keys were first set.
    pub closed spec fn entradas(&self) -> Seq<Par> {
        vista_pares(self.pares@)
    }

    #[verifier::type_invariant]
    spec fn sin_claves_repetidas(&self) -> bool {
        claves_unicas(self.entradas())
    }

    /// An empty dictionary.
    pub fn nuevo() -> (d: Self)
        ensures
            d@ == Map::<Seq<char>, Seq<char>>::empty(),
            d.entradas().len() == 0,
    {
        let d = Diccionario { pares: Vec::new() };
        assert(d.entradas().len() == 0);
        d
    }

    /// Where the pair with key `clave` stands, if there is one.
    fn buscar(&self, clave: &str) -> (r: Option<usize>)
        ensures
            match r {
                Some(i) => i < self.entradas().len() && self.entradas()[i as int].0 == clave@,
                None => forall|j: int| 0 <= j < self.entradas().len() ==> self.entradas()[j].0 != clave@,
            },
    {
        let n = self.pares.len();
        let mut i: usize = 0;
        while i < n
            invariant
                n == self.pares.len(),
                n == self.entradas().len(),
                i <= n,
                forall|j: int| 0 <= j < i ==> self.entradas()[j].0 != clave@,
            decreases n - i,
        {
            if textos_iguales(self.pares[i].0.as_str(), clave) {
                return Some(i);
            }
            i = i + 1;
        }
        None
    }

    /// The value stored under `clave`, if any.
    pub fn obtener(&self, clave: &str) -> (r: Option<String>)
        ensures
            match r {
                Some(v) => self@.contains_key(clave@) && v@ == self@[clave@],
                None => !self@.contains_key(clave@),
            },
    {
        proof {
            use_type_invariant(self);
            lema_dominio(self.entradas(), clave@);
        }
        match self.buscar(clave) {
            Some(i) => {
                proof {
                    lema_valor(self.entradas(), i as int);
                }
                Some(self.pares[i].1.clone())
            },
            None => None,
        }
    }

    /// Stores `valor` under `clave`, replacing any previous value.
    pub fn insertar(&mut self, clave: String, valor: String)
        ensures
            final(self)@ == old(self)@.insert(clave@, valor@),
    {
        proof {
            use_type_invariant(&*self);
        }
        let ghost antes = self.entradas();
        match self.buscar(clave.as_str()) {
            Some(i) => {
                proof {
                    lema_actualizar(antes, i as int, valor@);
                }
                let mut pares: Vec<(String, String)> = Vec::new();
                std::mem::swap(&mut pares, &mut self.pares);
                pares.set(i, (clave, valor));
                assert(vista_pares(pares@) =~= antes.update(i as int, (antes[i as int].0, valor@)));
                self.pares = pares;
                assert(self.entradas() == antes.update(i as int, (antes[i as int].0, valor@)));
            },
            None => {
                let mut pares: Vec<(String, String)> = Vec::new();
                std::mem::swap(&mut pares, &mut self.pares);
                let ghost k = clave@;
                let ghost v = valor@;
                pares.push((clave, valor));
                assert(vista_pares(pares@) =~= antes.push((k, v)));
                assert(claves_unicas(antes.push((k, v))));
                self.pares = pares;
                assert(self.entradas().drop_last() == antes);
                assert(claves_unicas(self.entradas()));
            },
        }
    }

    /// Removes `clave` and its value; nothing changes if the key is absent.
    pub fn quitar(&mut self, clave: &str)
        ensures
            final(self)@ == old(self)@.remove(clave@),
    {
        proof {
            use_type_invariant(&*self);
            lema_dominio(self.entradas(), clave@);
        }
        let ghost antes = self.entradas();
        match self.buscar(clave) {
            Some(i) => {
                proof {
                    lema_quitar(antes, i as int);
                }
                let mut pares: Vec<(String, String)> = Vec::new();
                std::mem::swap(&mut pares, &mut self.pares);
                pares.remove(i);
                assert(vista_pares(pares@) =~= antes.remove(i as int));
                self.pares = pares;
                assert(self.entradas() == antes.remove(i as int));
            },
            None => {
                assert(old(self)@.remove(clave@) == old(self)@);
            },
        }
    }

    /// The number of keys stored.
    pub fn cantidad(&self) -> (n: usize)
        ensures
            n == self@.dom().len(),
            n == self.entradas().len(),
            claves_unicas(self.entradas()),
    {
        proof {
            use_type_invariant(self);
            lema_tamano(self.entradas());
        }
        self.pares.len()
    }

    /// The key and value of the pair at position `i`.
    pub fn entrada(&self, i: usize) -> (r: (&String, &String))
        requires
            i < self.entradas().len(),
        ensures
            r.0@ == self.entradas()[i as int].0,
            r.1@ == self.entradas()[i as int].1,
    {
        (&self.pares[i].0, &self.pares[i].1)
    }
}

impl View for Diccionario {
    type V = Map<Seq<char>, Seq<char>>;

    open spec fn view(&self) -> Map<Seq<char>, Seq<char>> {
        mapa_de(self.entradas())
    }
}

} // verus!
