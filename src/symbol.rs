//! The string interner: each distinct string gets a dense index, in order of
//! first sight.

use indexmap::IndexSet;
use rustc_hash::FxBuildHasher;
use crate::span::Symbol;
use vstd::prelude::*;

verus! {

#[verifier::external_type_specification]
#[verifier::external_body]
#[verifier::reject_recursive_types(T)]
#[verifier::reject_recursive_types(S)]
pub struct ExIndexSet<T, S>(IndexSet<T, S>);

#[verifier::external_type_specification]
#[verifier::external_body]
pub struct ExFxBuildHasher(FxBuildHasher);

/// The strings that an index set holds, in insertion order.
pub uninterp spec fn set_entries(s: IndexSet<String, FxBuildHasher>) -> Seq<Seq<char>>;

/// Relies on `IndexSet::default`: an empty set.
#[verifier::external_body]
fn empty_set() -> (r: IndexSet<String, FxBuildHasher>)
    ensures
        set_entries(r) == Seq::<Seq<char>>::empty(),
{
    IndexSet::default()
}

/// Relies on `IndexSet::get_index_of`: the position of an equal item, if any.
#[verifier::external_body]
fn set_index_of(set: &IndexSet<String, FxBuildHasher>, s: &str) -> (r: Option<usize>)
    ensures
        match r {
            Some(i) => i < set_entries(*set).len() && set_entries(*set)[i as int] == s@,
            None => !set_entries(*set).contains(s@),
        },
{
    set.get_index_of(s)
}

/// Relies on `IndexSet::insert_full`: an item already present keeps its
/// position and the set is unchanged; a new one goes at the end.
#[verifier::external_body]
fn set_insert_full(set: &mut IndexSet<String, FxBuildHasher>, s: String) -> (r: (usize, bool))
    ensures
        set_entries(*old(set)).contains(s@) ==> {
            &&& set_entries(*final(set)) == set_entries(*old(set))
            &&& r.0 < set_entries(*old(set)).len()
            &&& set_entries(*old(set))[r.0 as int] == s@
            &&& !r.1
        },
        !set_entries(*old(set)).contains(s@) ==> {
            &&& set_entries(*final(set)) == set_entries(*old(set)).push(s@)
            &&& r.0 == set_entries(*old(set)).len()
            &&& r.1
        },
{
    set.insert_full(s)
}

/// Relies on `IndexSet::len`: the number of items.
#[verifier::external_body]
fn set_len(set: &IndexSet<String, FxBuildHasher>) -> (r: usize)
    ensures
        r == set_entries(*set).len(),
{
    set.len()
}

/// Relies on `IndexSet::get_index`: the item at a position below the length.
#[verifier::external_body]
fn set_get_index(set: &IndexSet<String, FxBuildHasher>, i: usize) -> (r: Option<&String>)
    ensures
        i < set_entries(*set).len() ==> r is Some && r.unwrap()@ == set_entries(*set)[i as int],
        i >= set_entries(*set).len() ==> r is None,
{
    set.get_index(i)
}

/// Strings and index after interning `s` into `strings`: an existing string
/// keeps its index, a new one is appended and gets the next index.
pub open spec fn interned(strings: Seq<Seq<char>>, s: Seq<char>) -> (Seq<Seq<char>>, nat) {
    if strings.contains(s) {
        (strings, (choose|i: int| 0 <= i < strings.len() && strings[i] == s) as nat)
    } else {
        (strings.push(s), strings.len())
    }
}

/// Strings after interning each of `init`, in order.
pub open spec fn interned_all(strings: Seq<Seq<char>>, init: Seq<Seq<char>>) -> Seq<Seq<char>>
    decreases init.len(),
{
    if init.len() == 0 {
        strings
    } else {
        interned_all(interned(strings, init[0]).0, init.drop_first())
    }
}

/// The character sequences of a sequence of string slices.
pub open spec fn str_views(v: Seq<&str>) -> Seq<Seq<char>> {
    v.map_values(|s: &str| s@)
}

/// The strings that a fresh interner holds: the keywords, in order.
pub open spec fn keywords() -> Seq<Seq<char>> {
    seq!["int"@, "return"@]
}

/// Interning a string twice gives the same index and leaves the strings as
/// the first call left them; interning two different strings gives two
/// different indices.
pub proof fn lemma_intern_idempotent_distinct(strings: Seq<Seq<char>>, a: Seq<char>, b: Seq<char>)
    requires
        strings.no_duplicates(),
    ensures
        interned(interned(strings, a).0, a) == interned(strings, a),
        a != b ==> interned(strings, a).1 != interned(interned(strings, a).0, b).1,
{
    let (t, i) = interned(strings, a);
    assert(t.contains(a)) by {
        if !strings.contains(a) {
            assert(t[strings.len() as int] == a);
        }
    }
    lemma_interned_wf(strings, a);
    let j = choose|j: int| 0 <= j < t.len() && t[j] == a;
    assert(t[i as int] == a);
    assert(j == i);
    if a != b {
        let (u, k) = interned(t, b);
        lemma_interned_wf(t, b);
        assert(u[k as int] == b);
        assert(u[i as int] == a);
    }
}

/// Interning keeps the strings free of duplicates, puts `s` at the index it
/// returns and keeps every earlier string where it was.
pub proof fn lemma_interned_wf(strings: Seq<Seq<char>>, s: Seq<char>)
    requires
        strings.no_duplicates(),
    ensures
        interned(strings, s).0.no_duplicates(),
        interned(strings, s).1 < interned(strings, s).0.len(),
        interned(strings, s).0[interned(strings, s).1 as int] == s,
        interned(strings, s).0.len() >= strings.len(),
        forall|i: int| 0 <= i < strings.len() ==> interned(strings, s).0[i] == strings[i],
{
}

/// On a fresh interner "int" has index 0 and "return" index 1.
pub proof fn lemma_keywords_preregistered()
    ensures
        interned(keywords(), "int"@) == (keywords(), 0nat),
        interned(keywords(), "return"@) == (keywords(), 1nat),
{
    reveal_strlit("int");
    reveal_strlit("return");
    assert("int"@ != "return"@) by {
        assert("int"@[0] != "return"@[0]);
    }
    assert(keywords()[0] == "int"@);
    assert(keywords()[1] == "return"@);
    assert(keywords().contains("int"@));
    assert(keywords().contains("return"@));
}

/// Owns every distinct string it has seen and gives each a dense index.
pub struct Interner {
    strings: IndexSet<String, FxBuildHasher>,
}

impl View for Interner {
    type V = Seq<Seq<char>>;

    closed spec fn view(&self) -> Seq<Seq<char>> {
        set_entries(self.strings)
    }
}

impl Interner {
    /// No string is held twice.
    pub open spec fn wf(&self) -> bool {
        self@.no_duplicates()
    }

    /// An interner holding the strings of `init`, each once, in order of
    /// first occurrence.
    fn prefill(init: &[&str]) -> (r: Interner)
        requires
            init@.len() < u32::MAX,
        ensures
            r.wf(),
            r@ == interned_all(Seq::empty(), str_views(init@)),
    {
        let mut r = Interner { strings: empty_set() };
        let mut i: usize = 0;
        assert(str_views(init@).subrange(0, init@.len() as int) =~= str_views(init@));
        while i < init.len()
            invariant
                i <= init@.len() < u32::MAX,
                r.wf(),
                r@.len() <= i,
                interned_all(Seq::empty(), str_views(init@)) == interned_all(
                    r@,
                    str_views(init@).subrange(i as int, init@.len() as int),
                ),
            decreases init@.len() - i,
        {
            let ghost rest = str_views(init@).subrange(i as int, init@.len() as int);
            assert(rest.drop_first() =~= str_views(init@).subrange(
                i + 1,
                init@.len() as int,
            ));
            r.intern(init[i]);
            i = i + 1;
        }
        assert(str_views(init@).subrange(init@.len() as int, init@.len() as int)
            =~= Seq::<Seq<char>>::empty());
        r
    }

    /// A new interner holding the keywords: "int" at index 0, "return" at 1.
    pub fn fresh() -> (r: Interner)
        ensures
            r.wf(),
            r@ == keywords(),
    {
        let names: [&str; 2] = ["int", "return"];
        let r = Self::prefill(names.as_slice());
        proof {
            reveal_strlit("int");
            reveal_strlit("return");
            let init = str_views(names@);
            assert(init =~= keywords());
            assert("int"@ != "return"@) by {
                assert("int"@[0] != "return"@[0]);
            }
            let one = interned(Seq::empty(), init[0]).0;
            assert(one =~= seq!["int"@]);
            assert(!one.contains("return"@));
            assert(interned(one, init.drop_first()[0]).0 =~= keywords());
            assert(init.drop_first().drop_first() =~= Seq::<Seq<char>>::empty());
            assert(interned_all(Seq::empty(), init) == interned_all(one, init.drop_first()));
            assert(interned_all(one, init.drop_first()) == interned_all(
                keywords(),
                init.drop_first().drop_first(),
            ));
        }
        r
    }

    /// Interns `string`: its existing symbol if it was seen before, else the
    /// next index.
    pub fn intern(&mut self, string: &str) -> (r: Symbol)
        requires
            old(self).wf(),
            old(self)@.len() < u32::MAX,
        ensures
            final(self).wf(),
            (final(self)@, r.index()) == interned(old(self)@, string@),
    {
        match set_index_of(&self.strings, string) {
            Some(idx) => {
                proof {
                    let j = choose|j: int| 0 <= j < self@.len() && self@[j] == string@;
                    assert(j == idx);
                }
                Symbol::new(idx as u32)
            },
            None => {
                let (idx, _) = set_insert_full(&mut self.strings, string.to_owned());
                Symbol::new(idx as u32)
            },
        }
    }

    /// Number of interned strings.
    pub fn len(&self) -> (r: usize)
        ensures
            r == self@.len(),
    {
        set_len(&self.strings)
    }

    /// All interned strings, in order of first sight.
    pub fn iter(&self) -> (r: Vec<&str>)
        ensures
            str_views(r@) == self@,
    {
        let n = set_len(&self.strings);
        let mut out: Vec<&str> = Vec::new();
        let mut i: usize = 0;
        while i < n
            invariant
                n == self@.len(),
                i <= n,
                str_views(out@) == self@.subrange(0, i as int),
            decreases n - i,
        {
            let s = set_get_index(&self.strings, i).unwrap();
            let ghost before = out@;
            let t = s.as_str();
            out.push(t);
            assert(out@ =~= before.push(t));
            assert(str_views(out@) =~= str_views(before).push(t@));
            assert(str_views(out@) =~= self@.subrange(0, i + 1));
            i = i + 1;
        }
        assert(self@.subrange(0, n as int) =~= self@);
        out
    }
}

} // verus!
