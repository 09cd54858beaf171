//! A small header map: named text fields, names compared without case.
use vstd::prelude::*;

verus! {

/// The name of the header this library reads and writes.
pub const ACCEPT_ENCODING: &'static str = "accept-encoding";

pub open spec fn is_upper(c: char) -> bool {
    'A' <= c && c <= 'Z'
}

/// Two characters are the same letter, ignoring ASCII case.
pub open spec fn same_letter(a: char, b: char) -> bool {
    a == b || (is_upper(a) && b as int == a as int + 32) || (is_upper(b) && a as int == b as int + 32)
}

/// Two header names are equal, ignoring ASCII case.
pub open spec fn name_eq(a: Seq<char>, b: Seq<char>) -> bool {
    a.len() == b.len() && forall|i: int| 0 <= i < a.len() ==> same_letter(#[trigger] a[i], b[i])
}

/// The values of the fields named `n`, in order.
pub open spec fn values_named(fs: Seq<(Seq<char>, Seq<char>)>, n: Seq<char>) -> Seq<Seq<char>>
    decreases fs.len(),
{
    if fs.len() == 0 {
        seq![]
    } else if name_eq(fs.last().0, n) {
        values_named(fs.drop_last(), n).push(fs.last().1)
    } else {
        values_named(fs.drop_last(), n)
    }
}

/// The fields not named `n`, in order.
pub open spec fn without_name(fs: Seq<(Seq<char>, Seq<char>)>, n: Seq<char>) -> Seq<(Seq<char>, Seq<char>)>
    decreases fs.len(),
{
    if fs.len() == 0 {
        seq![]
    } else if name_eq(fs.last().0, n) {
        without_name(fs.drop_last(), n)
    } else {
        without_name(fs.drop_last(), n).push(fs.last())
    }
}

fn same_letter_exec(a: char, b: char) -> (r: bool)
    ensures
        r == same_letter(a, b),
{
    a == b || ('A' <= a && a <= 'Z' && b as u32 == a as u32 + 32) || ('A' <= b && b <= 'Z' && a as u32
        == b as u32 + 32)
}

/// Whether two header names are equal, ignoring ASCII case.
pub fn names_match(a: &str, b: &str) -> (r: bool)
    ensures
        r == name_eq(a@, b@),
{
    let n = a.unicode_len();
    if n != b.unicode_len() {
        return false;
    }
    let mut i: usize = 0;
    while i < n
        invariant
            n == a@.len() == b@.len(),
            i <= n,
            forall|k: int| 0 <= k < i ==> same_letter(#[trigger] a@[k], b@[k]),
        decreases n - i,
    {
        if !same_letter_exec(a.get_char(i), b.get_char(i)) {
            return false;
        }
        i = i + 1;
    }
    true
}

/// A collection of header fields, each a name and a text value, in the
/// order they were added. A name may occur more than once.
#[derive(Debug)]
pub struct Headers {
    fields: Vec<(String, String)>,
}

impl View for Headers {
    type V = Seq<(Seq<char>, Seq<char>)>;

    closed spec fn view(&self) -> Seq<(Seq<char>, Seq<char>)> {
        self.fields@.map_values(|f: (String, String)| (f.0@, f.1@))
    }
}

impl Headers {
    /// Creates an empty collection.
    pub fn new() -> (r: Headers)
        ensures
            r@ == Seq::<(Seq<char>, Seq<char>)>::empty(),
    {
        let r = Headers { fields: Vec::new() };
        assert(r@ =~= Seq::<(Seq<char>, Seq<char>)>::empty());
        r
    }

    /// Adds a field, keeping those already there under the same name.
    pub fn append(&mut self, name: &str, value: String)
        ensures
            final(self)@ == old(self)@.push((name@, value@)),
    {
        self.fields.push((String::from_str(name), value));
        assert(final(self)@ =~= old(self)@.push((name@, value@)));
    }

    /// Sets a field, replacing every field under the same name.
    pub fn insert(&mut self, name: &str, value: String)
        ensures
            final(self)@ == without_name(old(self)@, name@).push((name@, value@)),
    {
        let n = self.fields.len();
        let mut kept: Vec<(String, String)> = Vec::new();
        let mut i: usize = 0;
        while i < n
            invariant
                n == self.fields@.len(),
                i <= n,
                *self == *old(self),
                kept@.map_values(|f: (String, String)| (f.0@, f.1@)) == without_name(
                    old(self)@.take(i as int),
                    name@,
                ),
            decreases n - i,
        {
            let ghost pre = old(self)@.take(i as int);
            assert(old(self)@.take(i + 1).drop_last() =~= pre);
            let f = &self.fields[i];
            if !names_match(f.0.as_str(), name) {
                kept.push((String::from_str(f.0.as_str()), String::from_str(f.1.as_str())));
            }
            i = i + 1;
            assert(kept@.map_values(|f: (String, String)| (f.0@, f.1@)) =~= without_name(
                old(self)@.take(i as int),
                name@,
            ));
        }
        assert(old(self)@.take(n as int) =~= old(self)@);
        kept.push((String::from_str(name), value));
        self.fields = kept;
        assert(final(self)@ =~= without_name(old(self)@, name@).push((name@, value@)));
    }

    /// The values of every field named `name`, in order; `None` when there
    /// is no such field.
    pub fn get(&self, name: &str) -> (r: Option<Vec<String>>)
        ensures
            match r {
                None => values_named(self@, name@).len() == 0,
                Some(v) => v@.len() > 0 && v@.map_values(|s: String| s@) == values_named(self@, name@),
            },
    {
        let n = self.fields.len();
        let mut found: Vec<String> = Vec::new();
        let mut i: usize = 0;
        while i < n
            invariant
                n == self.fields@.len(),
                i <= n,
                found@.map_values(|s: String| s@) == values_named(self@.take(i as int), name@),
            decreases n - i,
        {
            assert(self@.take(i + 1).drop_last() =~= self@.take(i as int));
            let f = &self.fields[i];
            if names_match(f.0.as_str(), name) {
                found.push(String::from_str(f.1.as_str()));
            }
            i = i + 1;
            assert(found@.map_values(|s: String| s@) =~= values_named(self@.take(i as int), name@));
        }
        assert(self@.take(n as int) =~= self@);
        if found.len() == 0 {
            None
        } else {
            Some(found)
        }
    }
}

/// Reading a name right after setting it gives exactly the value set.
pub proof fn lemma_insert_then_get(fs: Seq<(Seq<char>, Seq<char>)>, n: Seq<char>, v: Seq<char>)
    ensures
        values_named(without_name(fs, n).push((n, v)), n) == seq![v],
{
    lemma_without_name_has_none(fs, n);
    let g = without_name(fs, n).push((n, v));
    assert(g.drop_last() =~= without_name(fs, n));
    assert(values_named(without_name(fs, n), n).push(v) =~= seq![v]);
}

proof fn lemma_without_name_has_none(fs: Seq<(Seq<char>, Seq<char>)>, n: Seq<char>)
    ensures
        values_named(without_name(fs, n), n).len() == 0,
    decreases fs.len(),
{
    if fs.len() > 0 {
        lemma_without_name_has_none(fs.drop_last(), n);
        let w = without_name(fs.drop_last(), n);
        if !name_eq(fs.last().0, n) {
            assert(w.push(fs.last()).drop_last() =~= w);
        }
    }
}

} // verus!
