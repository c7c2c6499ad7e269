//! Literal atoms (floats by their bits, strings, chars) and the ordered,
//! duplicate-free lists of atoms that string, char and float spaces use.

use vstd::prelude::*;

verus! {

/// A literal that a pattern may match against a string, char or float.
#[derive(Debug)]
pub enum LiteralAtom {
    Float(u64),
    String(String),
    Char(char),
}

/// The kind of literal a primitive equality space ranges over.
#[derive(Clone, Copy, Debug, PartialEq, Eq, Structural)]
pub enum PrimitiveEqKind {
    Float,
    String,
    Char,
}

/// The mathematical value of a literal atom.
pub enum AtomV {
    Float(u64),
    Str(Seq<char>),
    Char(char),
}

impl View for LiteralAtom {
    type V = AtomV;

    open spec fn view(&self) -> AtomV {
        match self {
            LiteralAtom::Float(b) => AtomV::Float(*b),
            LiteralAtom::String(s) => AtomV::Str(s@),
            LiteralAtom::Char(c) => AtomV::Char(*c),
        }
    }
}

/// The values of a list of atoms, in order.
pub open spec fn atoms_view(v: Seq<LiteralAtom>) -> Seq<AtomV> {
    Seq::new(v.len(), |i: int| v[i]@)
}

/// The kind a literal atom belongs to.
pub open spec fn kind_of(a: AtomV) -> PrimitiveEqKind {
    match a {
        AtomV::Float(_) => PrimitiveEqKind::Float,
        AtomV::Str(_) => PrimitiveEqKind::String,
        AtomV::Char(_) => PrimitiveEqKind::Char,
    }
}

pub open spec fn kind_rank(a: AtomV) -> int {
    match a {
        AtomV::Float(_) => 0,
        AtomV::Str(_) => 1,
        AtomV::Char(_) => 2,
    }
}

/// Lexicographic order of strings by code point.
pub open spec fn str_lt(a: Seq<char>, b: Seq<char>) -> bool
    decreases a.len(),
{
    if a.len() == 0 {
        b.len() > 0
    } else if b.len() == 0 {
        false
    } else if a[0] != b[0] {
        (a[0] as u32) < (b[0] as u32)
    } else {
        str_lt(a.drop_first(), b.drop_first())
    }
}

/// The order of atoms: floats, then strings, then chars; within a kind by
/// bits, lexicographically, and by code point respectively.
pub open spec fn atom_lt_spec(a: AtomV, b: AtomV) -> bool {
    match (a, b) {
        (AtomV::Float(x), AtomV::Float(y)) => x < y,
        (AtomV::Str(x), AtomV::Str(y)) => str_lt(x, y),
        (AtomV::Char(x), AtomV::Char(y)) => (x as u32) < (y as u32),
        _ => kind_rank(a) < kind_rank(b),
    }
}

/// Position at which `x` is inserted: before the first larger atom.
pub open spec fn atom_pos(s: Seq<AtomV>, x: AtomV) -> int
    decreases s.len(),
{
    if s.len() == 0 {
        0
    } else if atom_lt_spec(x, s[0]) {
        0
    } else {
        1 + atom_pos(s.drop_first(), x)
    }
}

/// Adds `x` to an ordered list unless it is already there.
pub open spec fn atom_insert(s: Seq<AtomV>, x: AtomV) -> Seq<AtomV> {
    if s.contains(x) {
        s
    } else {
        s.insert(atom_pos(s, x), x)
    }
}

/// Every atom of `b` added to `a`, one after the other.
pub open spec fn atoms_union_spec(a: Seq<AtomV>, b: Seq<AtomV>) -> Seq<AtomV>
    decreases b.len(),
{
    if b.len() == 0 {
        a
    } else {
        atom_insert(atoms_union_spec(a, b.drop_last()), b.last())
    }
}

/// The atoms of `a` that are in `b`, in the order of `a`.
pub open spec fn atoms_intersection_spec(a: Seq<AtomV>, b: Seq<AtomV>) -> Seq<AtomV> {
    a.filter(|x: AtomV| b.contains(x))
}

/// The atoms of `a` that are not in `b`, in the order of `a`.
pub open spec fn atoms_difference_spec(a: Seq<AtomV>, b: Seq<AtomV>) -> Seq<AtomV> {
    a.filter(|x: AtomV| !b.contains(x))
}

/// No atom occurs twice.
pub open spec fn atoms_distinct(s: Seq<AtomV>) -> bool {
    forall|i: int, j: int| 0 <= i < j < s.len() ==> s[i] != s[j]
}

/// A copy of an atom.
pub fn atom_clone(a: &LiteralAtom) -> (r: LiteralAtom)
    ensures
        r@ == a@,
{
    match a {
        LiteralAtom::Float(b) => LiteralAtom::Float(*b),
        LiteralAtom::String(s) => LiteralAtom::String(s.clone()),
        LiteralAtom::Char(c) => LiteralAtom::Char(*c),
    }
}

/// A copy of a list of atoms.
pub fn atoms_clone(v: &Vec<LiteralAtom>) -> (r: Vec<LiteralAtom>)
    ensures
        atoms_view(r@) == atoms_view(v@),
{
    let mut r: Vec<LiteralAtom> = Vec::new();
    let mut i: usize = 0;
    while i < v.len()
        invariant
            i <= v.len(),
            r.len() == i,
            forall|k: int| 0 <= k < i ==> (#[trigger] r@[k])@ == v@[k]@,
        decreases v.len() - i,
    {
        r.push(atom_clone(&v[i]));
        i += 1;
    }
    proof {
        assert(atoms_view(r@) =~= atoms_view(v@));
    }
    r
}

/// Whether two atoms are the same literal.
pub fn atom_eq(a: &LiteralAtom, b: &LiteralAtom) -> (r: bool)
    ensures
        r == (a@ == b@),
{
    match (a, b) {
        (LiteralAtom::Float(x), LiteralAtom::Float(y)) => *x == *y,
        (LiteralAtom::String(x), LiteralAtom::String(y)) => x.eq(y),
        (LiteralAtom::Char(x), LiteralAtom::Char(y)) => *x == *y,
        _ => false,
    }
}

proof fn lemma_str_lt_skip(a: Seq<char>, b: Seq<char>, i: int)
    requires
        0 <= i < a.len(),
        i < b.len(),
        a[i] == b[i],
    ensures
        str_lt(a.skip(i), b.skip(i)) == str_lt(a.skip(i + 1), b.skip(i + 1)),
{
    assert(a.skip(i).drop_first() =~= a.skip(i + 1));
    assert(b.skip(i).drop_first() =~= b.skip(i + 1));
}

fn str_less(a: &String, b: &String) -> (r: bool)
    ensures
        r == str_lt(a@, b@),
{
    let la = a.as_str().unicode_len();
    let lb = b.as_str().unicode_len();
    let mut i: usize = 0;
    proof {
        assert(a@.skip(0) =~= a@);
        assert(b@.skip(0) =~= b@);
    }
    while i < la && i < lb
        invariant
            la == a@.len(),
            lb == b@.len(),
            i <= la,
            i <= lb,
            str_lt(a@, b@) == str_lt(a@.skip(i as int), b@.skip(i as int)),
        decreases la - i,
    {
        let ca = a.as_str().get_char(i);
        let cb = b.as_str().get_char(i);
        if ca != cb {
            proof {
                assert(a@.skip(i as int)[0] == ca);
                assert(b@.skip(i as int)[0] == cb);
            }
            return (ca as u32) < (cb as u32);
        }
        proof {
            lemma_str_lt_skip(a@, b@, i as int);
        }
        i += 1;
    }
    i < lb
}

/// Whether `a` comes before `b` in the order of atoms.
pub fn atom_lt(a: &LiteralAtom, b: &LiteralAtom) -> (r: bool)
    ensures
        r == atom_lt_spec(a@, b@),
{
    match (a, b) {
        (LiteralAtom::Float(x), LiteralAtom::Float(y)) => *x < *y,
        (LiteralAtom::String(x), LiteralAtom::String(y)) => str_less(x, y),
        (LiteralAtom::Char(x), LiteralAtom::Char(y)) => (*x as u32) < (*y as u32),
        (LiteralAtom::Float(_), _) => true,
        (LiteralAtom::String(_), LiteralAtom::Char(_)) => true,
        _ => false,
    }
}

/// Whether `a` is one of the atoms of `v`.
pub fn atoms_contains(v: &Vec<LiteralAtom>, a: &LiteralAtom) -> (r: bool)
    ensures
        r == atoms_view(v@).contains(a@),
{
    let mut i: usize = 0;
    while i < v.len()
        invariant
            i <= v.len(),
            forall|k: int| 0 <= k < i ==> atoms_view(v@)[k] != a@,
        decreases v.len() - i,
    {
        if atom_eq(&v[i], a) {
            proof {
                assert(atoms_view(v@)[i as int] == a@);
            }
            return true;
        }
        i += 1;
    }
    false
}

pub proof fn lemma_atom_pos(s: Seq<AtomV>, x: AtomV)
    ensures
        0 <= atom_pos(s, x) <= s.len(),
        forall|k: int| 0 <= k < atom_pos(s, x) ==> !atom_lt_spec(x, #[trigger] s[k]),
        atom_pos(s, x) < s.len() ==> atom_lt_spec(x, s[atom_pos(s, x)]),
    decreases s.len(),
{
    if s.len() > 0 && !atom_lt_spec(x, s[0]) {
        lemma_atom_pos(s.drop_first(), x);
        assert forall|k: int| 0 <= k < atom_pos(s, x) implies !atom_lt_spec(x, #[trigger] s[k]) by {
            if k > 0 {
                assert(s[k] == s.drop_first()[k - 1]);
            }
        }
    }
}

/// Inserts a copy of `a` at its place in the ordered list, unless present.
fn atoms_insert(v: &mut Vec<LiteralAtom>, a: &LiteralAtom)
    ensures
        atoms_view(final(v)@) == atom_insert(atoms_view(old(v)@), a@),
{
    if atoms_contains(v, a) {
        return;
    }
    let ghost s = atoms_view(v@);
    let mut pos: usize = 0;
    while pos < v.len() && !atom_lt(a, &v[pos])
        invariant
            pos <= v.len(),
            s == atoms_view(v@),
            !s.contains(a@),
            forall|k: int| 0 <= k < pos ==> !atom_lt_spec(a@, #[trigger] s[k]),
        decreases v.len() - pos,
    {
        pos += 1;
    }
    proof {
        lemma_atom_pos(s, a@);
        if pos < v.len() {
            assert(s[pos as int] == v@[pos as int]@);
            assert(atom_lt_spec(a@, s[pos as int]));
        }
        assert(pos == atom_pos(s, a@));
    }
    let c = atom_clone(a);
    v.insert(pos, c);
    proof {
        assert(atoms_view(v@) =~= s.insert(pos as int, a@));
    }
}

/// Both lists of atoms together, kept in order.
pub fn atoms_union(a: &Vec<LiteralAtom>, b: &Vec<LiteralAtom>) -> (r: Vec<LiteralAtom>)
    ensures
        atoms_view(r@) == atoms_union_spec(atoms_view(a@), atoms_view(b@)),
{
    let mut r = atoms_clone(a);
    let mut i: usize = 0;
    while i < b.len()
        invariant
            i <= b.len(),
            atoms_view(r@) == atoms_union_spec(atoms_view(a@), atoms_view(b@).take(i as int)),
        decreases b.len() - i,
    {
        proof {
            assert(atoms_view(b@).take(i + 1).drop_last() =~= atoms_view(b@).take(i as int));
            assert(atoms_view(b@).take(i + 1).last() == b@[i as int]@);
        }
        atoms_insert(&mut r, &b[i]);
        i += 1;
    }
    proof {
        assert(atoms_view(b@).take(b.len() as int) =~= atoms_view(b@));
    }
    r
}

/// The atoms of `a` that are also in `b`.
pub fn atoms_intersection(a: &Vec<LiteralAtom>, b: &Vec<LiteralAtom>) -> (r: Vec<LiteralAtom>)
    ensures
        atoms_view(r@) == atoms_intersection_spec(atoms_view(a@), atoms_view(b@)),
{
    let ghost bv = atoms_view(b@);
    let ghost pred = |x: AtomV| bv.contains(x);
    let mut r: Vec<LiteralAtom> = Vec::new();
    let mut i: usize = 0;
    while i < a.len()
        invariant
            i <= a.len(),
            bv == atoms_view(b@),
            pred == (|x: AtomV| bv.contains(x)),
            atoms_view(r@) == atoms_view(a@).take(i as int).filter(pred),
        decreases a.len() - i,
    {
        proof {
            reveal_with_fuel(Seq::filter, 1);
            assert(atoms_view(a@).take(i + 1).drop_last() =~= atoms_view(a@).take(i as int));
            assert(atoms_view(a@).take(i + 1).last() == a@[i as int]@);
        }
        if atoms_contains(b, &a[i]) {
            r.push(atom_clone(&a[i]));
            proof {
                assert(atoms_view(r@) =~= atoms_view(a@).take(i + 1).filter(pred));
            }
        } else {
            proof {
                assert(atoms_view(r@) =~= atoms_view(a@).take(i + 1).filter(pred));
            }
        }
        i += 1;
    }
    proof {
        assert(atoms_view(a@).take(a.len() as int) =~= atoms_view(a@));
    }
    r
}

/// The atoms of `a` that are not in `b`.
pub fn atoms_difference(a: &Vec<LiteralAtom>, b: &Vec<LiteralAtom>) -> (r: Vec<LiteralAtom>)
    ensures
        atoms_view(r@) == atoms_difference_spec(atoms_view(a@), atoms_view(b@)),
{
    let ghost bv = atoms_view(b@);
    let ghost pred = |x: AtomV| !bv.contains(x);
    let mut r: Vec<LiteralAtom> = Vec::new();
    let mut i: usize = 0;
    while i < a.len()
        invariant
            i <= a.len(),
            bv == atoms_view(b@),
            pred == (|x: AtomV| !bv.contains(x)),
            atoms_view(r@) == atoms_view(a@).take(i as int).filter(pred),
        decreases a.len() - i,
    {
        proof {
            reveal_with_fuel(Seq::filter, 1);
            assert(atoms_view(a@).take(i + 1).drop_last() =~= atoms_view(a@).take(i as int));
            assert(atoms_view(a@).take(i + 1).last() == a@[i as int]@);
        }
        if !atoms_contains(b, &a[i]) {
            r.push(atom_clone(&a[i]));
            proof {
                assert(atoms_view(r@) =~= atoms_view(a@).take(i + 1).filter(pred));
            }
        } else {
            proof {
                assert(atoms_view(r@) =~= atoms_view(a@).take(i + 1).filter(pred));
            }
        }
        i += 1;
    }
    proof {
        assert(atoms_view(a@).take(a.len() as int) =~= atoms_view(a@));
    }
    r
}

// ---------------------------------------------------------------------------
// The order of atoms, and ordered lists of atoms
// ---------------------------------------------------------------------------

proof fn lemma_str_lt_irreflexive(a: Seq<char>)
    ensures
        !str_lt(a, a),
    decreases a.len(),
{
    if a.len() > 0 {
        lemma_str_lt_irreflexive(a.drop_first());
    }
}

proof fn lemma_str_lt_transitive(a: Seq<char>, b: Seq<char>, c: Seq<char>)
    requires
        str_lt(a, b),
        str_lt(b, c),
    ensures
        str_lt(a, c),
    decreases a.len(),
{
    if a.len() > 0 && b.len() > 0 && c.len() > 0 && a[0] == b[0] && b[0] == c[0] {
        lemma_str_lt_transitive(a.drop_first(), b.drop_first(), c.drop_first());
    }
}

proof fn lemma_str_lt_total(a: Seq<char>, b: Seq<char>)
    requires
        a != b,
    ensures
        str_lt(a, b) || str_lt(b, a),
    decreases a.len(),
{
    if a.len() > 0 && b.len() > 0 {
        if a[0] == b[0] {
            if a.drop_first() =~= b.drop_first() {
                assert forall|i: int| 0 <= i < a.len() implies a[i] == b[i] by {
                    if i > 0 {
                        assert(a[i] == a.drop_first()[i - 1]);
                        assert(b[i] == b.drop_first()[i - 1]);
                    }
                }
                assert(a =~= b);
            }
            lemma_str_lt_total(a.drop_first(), b.drop_first());
        } else {
            lemma_char_code_injective(a[0], b[0]);
        }
    } else if a.len() == 0 && b.len() == 0 {
        assert(a =~= b);
    }
}

/// The order of atoms is a strict total order.
pub proof fn lemma_atom_order(a: AtomV, b: AtomV, c: AtomV)
    ensures
        !atom_lt_spec(a, a),
        atom_lt_spec(a, b) && atom_lt_spec(b, c) ==> atom_lt_spec(a, c),
        a != b ==> atom_lt_spec(a, b) || atom_lt_spec(b, a),
        atom_lt_spec(a, b) ==> !atom_lt_spec(b, a),
{
    match a {
        AtomV::Str(x) => {
            lemma_str_lt_irreflexive(x);
        },
        _ => {},
    }
    if atom_lt_spec(a, b) && atom_lt_spec(b, c) {
        if let (AtomV::Str(x), AtomV::Str(y), AtomV::Str(z)) = (a, b, c) {
            lemma_str_lt_transitive(x, y, z);
        }
    }
    if a != b {
        if let (AtomV::Str(x), AtomV::Str(y)) = (a, b) {
            lemma_str_lt_total(x, y);
        }
    }
    if atom_lt_spec(a, b) {
        if let (AtomV::Str(x), AtomV::Str(y)) = (a, b) {
            if str_lt(y, x) {
                lemma_str_lt_transitive(x, y, x);
                lemma_str_lt_irreflexive(x);
            }
        }
    }
}

/// The atoms are in strictly increasing order, so none occurs twice.
pub open spec fn atoms_sorted(s: Seq<AtomV>) -> bool {
    forall|i: int, j: int| 0 <= i < j < s.len() ==> atom_lt_spec(#[trigger] s[i], #[trigger] s[j])
}

/// Inserting an atom into an ordered list keeps it ordered and adds just
/// that atom.
pub proof fn law_atom_insert_keeps_order(s: Seq<AtomV>, x: AtomV)
    requires
        atoms_sorted(s),
    ensures
        atoms_sorted(atom_insert(s, x)),
        forall|y: AtomV| #[trigger] atom_insert(s, x).contains(y) <==> (s.contains(y) || y == x),
{
    if !s.contains(x) {
        let p = atom_pos(s, x);
        lemma_atom_pos(s, x);
        let r = s.insert(p, x);
        assert forall|i: int, j: int| 0 <= i < j < r.len() implies atom_lt_spec(#[trigger] r[i], #[trigger] r[j]) by {
            if j < p {
                assert(r[i] == s[i] && r[j] == s[j]);
            } else if j == p {
                assert(r[i] == s[i]);
                assert(!atom_lt_spec(x, s[i]));
                assert(s[i] != x);
                lemma_atom_order(s[i], x, x);
            } else if i < p {
                assert(r[i] == s[i] && r[j] == s[j - 1]);
                if i < j - 1 {
                } else {
                    assert(i == j - 1);
                }
                // s[i] < s[j - 1] or equal index
                if i < j - 1 {
                    assert(atom_lt_spec(s[i], s[j - 1]));
                } else {
                    lemma_atom_order(s[i], x, s[p]);
                    assert(!atom_lt_spec(x, s[i]));
                    assert(s[i] != x);
                    lemma_atom_order(s[i], x, x);
                    assert(atom_lt_spec(x, s[p]));
                    assert(j - 1 == p);
                }
            } else if i == p {
                assert(r[i] == x && r[j] == s[j - 1]);
                assert(atom_lt_spec(x, s[p]));
                if j - 1 > p {
                    assert(atom_lt_spec(s[p], s[j - 1]));
                    lemma_atom_order(x, s[p], s[j - 1]);
                }
            } else {
                assert(r[i] == s[i - 1] && r[j] == s[j - 1]);
            }
        }
        assert forall|y: AtomV| #[trigger] r.contains(y) <==> (s.contains(y) || y == x) by {
            if r.contains(y) {
                let k = choose|k: int| 0 <= k < r.len() && r[k] == y;
                if k < p {
                    assert(s[k] == y);
                } else if k > p {
                    assert(s[k - 1] == y);
                }
            }
            if s.contains(y) {
                let k = choose|k: int| 0 <= k < s.len() && s[k] == y;
                if k < p {
                    assert(r[k] == y);
                } else {
                    assert(r[k + 1] == y);
                }
            }
            if y == x {
                assert(r[p] == x);
            }
        }
    }
}

/// Uniting ordered lists of atoms keeps them ordered and holds the atoms
/// of both.
pub proof fn law_atoms_union_keeps_order(a: Seq<AtomV>, b: Seq<AtomV>)
    requires
        atoms_sorted(a),
    ensures
        atoms_sorted(atoms_union_spec(a, b)),
        forall|y: AtomV| #[trigger] atoms_union_spec(a, b).contains(y) <==> (a.contains(y) || b.contains(y)),
    decreases b.len(),
{
    if b.len() > 0 {
        law_atoms_union_keeps_order(a, b.drop_last());
        law_atom_insert_keeps_order(atoms_union_spec(a, b.drop_last()), b.last());
        assert forall|y: AtomV| b.contains(y) <==> (b.drop_last().contains(y) || y == b.last()) by {
            if b.contains(y) {
                let k = choose|k: int| 0 <= k < b.len() && b[k] == y;
                if k < b.len() - 1 {
                    assert(b.drop_last()[k] == y);
                }
            }
            if b.drop_last().contains(y) {
                let k = choose|k: int| 0 <= k < b.drop_last().len() && b.drop_last()[k] == y;
                assert(b[k] == y);
            }
        }
    }
}

/// Keeping some atoms of an ordered list keeps it ordered.
pub proof fn law_atoms_filter_keeps_order(s: Seq<AtomV>, f: spec_fn(AtomV) -> bool)
    requires
        atoms_sorted(s),
    ensures
        atoms_sorted(s.filter(f)),
        forall|y: AtomV| #[trigger] s.filter(f).contains(y) <==> (s.contains(y) && f(y)),
    decreases s.len(),
{
    reveal_with_fuel(Seq::filter, 1);
    if s.len() > 0 {
        let t = s.drop_last();
        assert(atoms_sorted(t)) by {
            assert forall|i: int, j: int| 0 <= i < j < t.len() implies atom_lt_spec(#[trigger] t[i], #[trigger] t[j]) by {
                assert(t[i] == s[i] && t[j] == s[j]);
            }
        }
        law_atoms_filter_keeps_order(t, f);
        let ft = t.filter(f);
        let x = s.last();
        assert(s.filter(f) == (if f(x) { ft.push(x) } else { ft }));
        assert forall|y: AtomV| s.contains(y) <==> (t.contains(y) || y == x) by {
            if s.contains(y) {
                let k = choose|k: int| 0 <= k < s.len() && s[k] == y;
                if k < s.len() - 1 {
                    assert(t[k] == y);
                }
            }
            if t.contains(y) {
                let k = choose|k: int| 0 <= k < t.len() && t[k] == y;
                assert(s[k] == y);
            }
        }
        if f(x) {
            let r = ft.push(x);
            assert forall|i: int, j: int| 0 <= i < j < r.len() implies atom_lt_spec(#[trigger] r[i], #[trigger] r[j]) by {
                if j == ft.len() {
                    assert(ft.contains(r[i]));
                    let k = choose|k: int| 0 <= k < t.len() && t[k] == r[i];
                    assert(s[k] == r[i]);
                    assert(atom_lt_spec(s[k], s[s.len() - 1]));
                } else {
                    assert(r[i] == ft[i] && r[j] == ft[j]);
                }
            }
            assert forall|y: AtomV| #[trigger] r.contains(y) <==> (ft.contains(y) || y == x) by {
                if r.contains(y) {
                    let k = choose|k: int| 0 <= k < r.len() && r[k] == y;
                    if k < ft.len() {
                        assert(ft[k] == y);
                    }
                }
                if ft.contains(y) {
                    let k = choose|k: int| 0 <= k < ft.len() && ft[k] == y;
                    assert(r[k] == y);
                }
                if y == x {
                    assert(r[ft.len() as int] == x);
                }
            }
        }
    }
}

/// Two ordered lists that hold the same atoms are the same list.
pub proof fn law_ordered_atoms_are_determined_by_their_members(a: Seq<AtomV>, b: Seq<AtomV>)
    requires
        atoms_sorted(a),
        atoms_sorted(b),
        forall|y: AtomV| a.contains(y) <==> b.contains(y),
    ensures
        a == b,
    decreases a.len() + b.len(),
{
    if a.len() == 0 {
        if b.len() > 0 {
            assert(b.contains(b[0]));
        }
        assert(a =~= b);
    } else if b.len() == 0 {
        assert(a.contains(a[0]));
    } else {
        let x = a.last();
        let y = b.last();
        assert(a.contains(x));
        assert(b.contains(y));
        let kx = choose|k: int| 0 <= k < b.len() && b[k] == x;
        let ky = choose|k: int| 0 <= k < a.len() && a[k] == y;
        if kx < b.len() - 1 {
            assert(atom_lt_spec(b[kx], b[b.len() - 1]));
            if ky < a.len() - 1 {
                assert(atom_lt_spec(a[ky], a[a.len() - 1]));
                lemma_atom_order(x, y, x);
            } else {
                lemma_atom_order(x, x, x);
            }
        }
        assert(kx == b.len() - 1);
        assert(x == y);
        let ta = a.drop_last();
        let tb = b.drop_last();
        assert(atoms_sorted(ta)) by {
            assert forall|i: int, j: int| 0 <= i < j < ta.len() implies atom_lt_spec(#[trigger] ta[i], #[trigger] ta[j]) by {
                assert(ta[i] == a[i] && ta[j] == a[j]);
            }
        }
        assert(atoms_sorted(tb)) by {
            assert forall|i: int, j: int| 0 <= i < j < tb.len() implies atom_lt_spec(#[trigger] tb[i], #[trigger] tb[j]) by {
                assert(tb[i] == b[i] && tb[j] == b[j]);
            }
        }
        assert forall|z: AtomV| ta.contains(z) <==> tb.contains(z) by {
            if ta.contains(z) {
                let k = choose|k: int| 0 <= k < ta.len() && ta[k] == z;
                assert(a[k] == z);
                assert(atom_lt_spec(a[k], a[a.len() - 1]));
                lemma_atom_order(z, x, z);
                assert(b.contains(z));
                let m = choose|m: int| 0 <= m < b.len() && b[m] == z;
                if m == b.len() - 1 {
                    assert(z == x);
                }
                assert(tb[m] == z);
            }
            if tb.contains(z) {
                let k = choose|k: int| 0 <= k < tb.len() && tb[k] == z;
                assert(b[k] == z);
                assert(atom_lt_spec(b[k], b[b.len() - 1]));
                lemma_atom_order(z, x, z);
                assert(a.contains(z));
                let m = choose|m: int| 0 <= m < a.len() && a[m] == z;
                if m == a.len() - 1 {
                    assert(z == x);
                }
                assert(ta[m] == z);
            }
        }
        law_ordered_atoms_are_determined_by_their_members(ta, tb);
        assert(a =~= ta.push(x));
        assert(b =~= tb.push(y));
    }
}

proof fn lemma_char_code_injective(x: char, y: char)
    ensures
        (x as u32) == (y as u32) ==> x == y,
{
}

} // verus!
