use vstd::prelude::*;
use crate::value::{Error, ReturnValue, ValueView, render, push_rendered};
use crate::text::{chars_of, string_of};

verus! {

/// The bindings of a list of entries; a later entry for a name wins.
pub open spec fn entries_map(s: Seq<(Vec<char>, ReturnValue)>) -> Map<Seq<char>, ValueView>
    decreases s.len(),
{
    if s.len() == 0 {
        Map::empty()
    } else {
        entries_map(s.drop_last()).insert(s.last().0@, s.last().1@)
    }
}

/// The variable environment: names bound to values, each name at most once.
pub struct Variables {
    entries: Vec<(Vec<char>, ReturnValue)>,
}

impl View for Variables {
    type V = Map<Seq<char>, ValueView>;

    closed spec fn view(&self) -> Map<Seq<char>, ValueView> {
        entries_map(self.entries@)
    }
}

proof fn lemma_map_absent(s: Seq<(Vec<char>, ReturnValue)>, k: Seq<char>)
    requires
        forall|j: int| 0 <= j < s.len() ==> (#[trigger] s[j]).0@ != k,
    ensures
        !entries_map(s).contains_key(k),
    decreases s.len(),
{
    if s.len() > 0 {
        lemma_map_absent(s.drop_last(), k);
    }
}

proof fn lemma_map_last(s: Seq<(Vec<char>, ReturnValue)>, i: int, k: Seq<char>)
    requires
        0 <= i < s.len(),
        s[i].0@ == k,
        forall|j: int| i < j < s.len() ==> (#[trigger] s[j]).0@ != k,
    ensures
        entries_map(s).contains_key(k),
        entries_map(s)[k] == s[i].1@,
    decreases s.len(),
{
    if i < s.len() - 1 {
        lemma_map_last(s.drop_last(), i, k);
    }
}

proof fn lemma_map_update(s: Seq<(Vec<char>, ReturnValue)>, i: int, e: (Vec<char>, ReturnValue))
    requires
        0 <= i < s.len(),
        s[i].0@ == e.0@,
        forall|j: int| i < j < s.len() ==> (#[trigger] s[j]).0@ != e.0@,
    ensures
        entries_map(s.update(i, e)) == entries_map(s).insert(e.0@, e.1@),
    decreases s.len(),
{
    let t = s.update(i, e);
    if i == s.len() - 1 {
        assert(t.drop_last() =~= s.drop_last());
        assert(entries_map(t) =~= entries_map(s).insert(e.0@, e.1@));
    } else {
        assert(t.drop_last() =~= s.drop_last().update(i, e));
        lemma_map_update(s.drop_last(), i, e);
        assert(entries_map(t) =~= entries_map(s).insert(e.0@, e.1@));
    }
}

fn chars_eq(a: &Vec<char>, s: &Vec<char>, lo: usize, hi: usize) -> (r: bool)
    requires
        lo <= hi <= s@.len(),
    ensures
        r == (a@ == s@.subrange(lo as int, hi as int)),
{
    if a.len() != hi - lo {
        return false;
    }
    let mut k: usize = 0;
    while k < a.len()
        invariant
            lo <= hi <= s@.len(),
            a@.len() == hi - lo,
            k <= a@.len(),
            forall|j: int| 0 <= j < k ==> a@[j] == s@[lo + j],
        decreases a@.len() - k,
    {
        if a[k] != s[lo + k] {
            return false;
        }
        k += 1;
    }
    assert(a@ =~= s@.subrange(lo as int, hi as int));
    true
}

impl Variables {
    pub fn new() -> (r: Variables)
        ensures
            r@ == Map::<Seq<char>, ValueView>::empty(),
    {
        Variables { entries: Vec::new() }
    }

    /// The index of the last entry named by `s[lo..hi]`.
    fn find(&self, s: &Vec<char>, lo: usize, hi: usize) -> (r: Option<usize>)
        requires
            lo <= hi <= s@.len(),
        ensures
            match r {
                Option::Some(i) => i < self.entries@.len()
                    && self.entries@[i as int].0@ == s@.subrange(lo as int, hi as int)
                    && self@.contains_key(s@.subrange(lo as int, hi as int))
                    && self@[s@.subrange(lo as int, hi as int)] == self.entries@[i as int].1@
                    && forall|j: int| i < j < self.entries@.len()
                        ==> (#[trigger] self.entries@[j]).0@ != s@.subrange(lo as int, hi as int),
                Option::None => !self@.contains_key(s@.subrange(lo as int, hi as int)),
            },
    {
        let ghost k = s@.subrange(lo as int, hi as int);
        let mut i: usize = self.entries.len();
        while i > 0
            invariant
                i <= self.entries@.len(),
                lo <= hi <= s@.len(),
                k == s@.subrange(lo as int, hi as int),
                forall|j: int| i <= j < self.entries@.len() ==> (#[trigger] self.entries@[j]).0@ != k,
            decreases i,
        {
            if chars_eq(&self.entries[i - 1].0, s, lo, hi) {
                proof {
                    lemma_map_last(self.entries@, i - 1, k);
                }
                return Some(i - 1);
            }
            i -= 1;
        }
        proof {
            lemma_map_absent(self.entries@, k);
        }
        None
    }

    /// The value bound to `name`, if any.
    pub fn get(&self, name: &str) -> (r: Option<&ReturnValue>)
        ensures
            match r {
                Option::Some(v) => self@.contains_key(name@) && self@[name@] == v@,
                Option::None => !self@.contains_key(name@),
            },
    {
        let s = chars_of(name);
        assert(s@.subrange(0, s@.len() as int) =~= s@);
        match self.find(&s, 0, s.len()) {
            Option::Some(i) => Some(&self.entries[i].1),
            Option::None => None,
        }
    }

    /// Binds `name` to `value`, replacing any earlier binding.
    pub fn set(&mut self, name: &str, value: ReturnValue)
        ensures
            final(self)@ == old(self)@.insert(name@, value@),
    {
        let s = chars_of(name);
        assert(s@.subrange(0, s@.len() as int) =~= s@);
        match self.find(&s, 0, s.len()) {
            Option::Some(i) => {
                proof {
                    lemma_map_update(self.entries@, i as int, (s, value));
                }
                self.entries.set(i, (s, value));
            },
            Option::None => {
                let ghost before = self.entries@;
                self.entries.push((s, value));
                assert(self.entries@.drop_last() =~= before);
            },
        }
    }
}

/// How many characters from index `k` on come before the next `}` or the end.
pub open spec fn name_len(s: Seq<char>, k: int) -> nat
    decreases s.len() - k,
{
    if 0 <= k < s.len() && s[k] != '}' { 1 + name_len(s, k + 1) } else { 0 }
}

pub open spec fn after(head: Seq<char>, r: Result<Seq<char>, Error>) -> Result<Seq<char>, Error> {
    match r {
        Ok(t) => Ok(head + t),
        Err(e) => Err(e),
    }
}

/// `s` from index `i` on, with each `{name}` replaced by the rendering of the
/// value bound to `name`. A `{` that no `}` follows stays as it is.
pub open spec fn expand_from(s: Seq<char>, i: int, m: Map<Seq<char>, ValueView>) -> Result<Seq<char>, Error>
    decreases s.len() - i,
{
    if i < 0 || i >= s.len() {
        Ok(Seq::empty())
    } else if s[i] == '{' && i + 1 + name_len(s, i + 1) < s.len() {
        let j = i + 1 + name_len(s, i + 1);
        let name = s.subrange(i + 1, j);
        if m.contains_key(name) {
            after(render(m[name]), expand_from(s, j + 1, m))
        } else {
            Err(Error::UndefinedVariable)
        }
    } else {
        after(seq![s[i]], expand_from(s, i + 1, m))
    }
}

pub open spec fn expand(s: Seq<char>, m: Map<Seq<char>, ValueView>) -> Result<Seq<char>, Error> {
    expand_from(s, 0, m)
}

proof fn lemma_name_len(s: Seq<char>, k: int)
    requires
        0 <= k,
    ensures
        k <= s.len() ==> k + name_len(s, k) <= s.len(),
        k + name_len(s, k) < s.len() ==> s[k + name_len(s, k)] == '}',
    decreases s.len() - k,
{
    if 0 <= k < s.len() && s[k] != '}' {
        lemma_name_len(s, k + 1);
    }
}

fn name_end(s: &Vec<char>, k: usize) -> (j: usize)
    requires
        k <= s@.len(),
    ensures
        j == k + name_len(s@, k as int),
{
    let mut j = k;
    while j < s.len() && s[j] != '}'
        invariant
            k <= j <= s@.len(),
            k + name_len(s@, k as int) == j + name_len(s@, j as int),
        decreases s@.len() - j,
    {
        j += 1;
    }
    j
}

pub(crate) fn expand_chars(s: &Vec<char>, variables: &Variables) -> (r: Result<Vec<char>, Error>)
    ensures
        match (r, expand(s@, variables@)) {
            (Ok(t), Ok(u)) => t@ == u,
            (Err(e), Err(f)) => e == f,
            _ => false,
        },
{
    let mut acc: Vec<char> = Vec::new();
    let mut i: usize = 0;
    while i < s.len()
        invariant
            i <= s@.len(),
            expand(s@, variables@) == after(acc@, expand_from(s@, i as int, variables@)),
        decreases s@.len() - i,
    {
        let ghost before = acc@;
        if s[i] == '{' {
            let j = name_end(s, i + 1);
            proof {
                lemma_name_len(s@, i + 1);
            }
            if j < s.len() {
                match variables.find(s, i + 1, j) {
                    Option::None => {
                        return Err(Error::UndefinedVariable);
                    },
                    Option::Some(k) => {
                        push_rendered(&mut acc, &variables.entries[k].1);
                        proof {
                            let rest = expand_from(s@, j + 1, variables@);
                            if rest is Ok {
                                assert(before + (render(variables@[s@.subrange(i + 1, j as int)]) + rest->Ok_0)
                                    =~= acc@ + rest->Ok_0);
                            }
                        }
                        i = j + 1;
                        continue;
                    },
                }
            }
        }
        acc.push(s[i]);
        proof {
            let rest = expand_from(s@, i + 1, variables@);
            if rest is Ok {
                assert(before + (seq![s@[i as int]] + rest->Ok_0) =~= acc@ + rest->Ok_0);
            }
        }
        i += 1;
    }
    assert(acc@ + Seq::<char>::empty() =~= acc@);
    Ok(acc)
}

/// Replaces each `{name}` of `expression` by the text of the value bound to `name`.
pub fn expand_variables(expression: &str, variables: &Variables) -> (r: Result<String, Error>)
    ensures
        match (r, expand(expression@, variables@)) {
            (Ok(t), Ok(u)) => t@ == u,
            (Err(e), Err(f)) => e == f,
            _ => false,
        },
{
    let s = chars_of(expression);
    match expand_chars(&s, variables) {
        Ok(t) => Ok(string_of(&t)),
        Err(e) => Err(e),
    }
}

proof fn lemma_name_skip(s: Seq<char>, k: int, j: int)
    requires
        0 <= k <= j < s.len(),
        s[j] == '}',
        forall|i: int| k <= i < j ==> s[i] != '}',
    ensures
        k + name_len(s, k) == j,
    decreases j - k,
{
    if k < j {
        lemma_name_skip(s, k + 1, j);
    }
}

/// A placeholder `{name}` expands to the rendering of the value last bound to
/// `name`, and fails with `UndefinedVariable` where `name` is unbound.
pub proof fn lemma_placeholder(name: Seq<char>, m: Map<Seq<char>, ValueView>)
    requires
        forall|i: int| 0 <= i < name.len() ==> name[i] != '}',
    ensures
        m.contains_key(name) ==> expand(seq!['{'] + name + seq!['}'], m) == Ok::<Seq<char>, Error>(render(m[name])),
        !m.contains_key(name) ==> expand(seq!['{'] + name + seq!['}'], m) == Err::<Seq<char>, Error>(Error::UndefinedVariable),
{
    let s = seq!['{'] + name + seq!['}'];
    let n = name.len() as int;
    assert(s[0] == '{');
    assert(s[n + 1] == '}');
    assert forall|i: int| 1 <= i < n + 1 implies s[i] != '}' by {
        assert(s[i] == name[i - 1]);
    }
    lemma_name_skip(s, 1, n + 1);
    assert(s.subrange(1, n + 1) =~= name);
    assert(expand_from(s, n + 2, m) == Ok::<Seq<char>, Error>(Seq::empty()));
    if m.contains_key(name) {
        assert(render(m[name]) + Seq::<char>::empty() =~= render(m[name]));
    }
}

/// After binding `name` to `v`, the placeholder `{name}` expands to the rendering of `v`.
pub proof fn lemma_assign_then_expand(name: Seq<char>, v: ValueView, m: Map<Seq<char>, ValueView>)
    requires
        forall|i: int| 0 <= i < name.len() ==> name[i] != '}',
    ensures
        expand(seq!['{'] + name + seq!['}'], m.insert(name, v)) == Ok::<Seq<char>, Error>(render(v)),
{
    lemma_placeholder(name, m.insert(name, v));
}

proof fn lemma_unbound_from(a: Seq<char>, name: Seq<char>, b: Seq<char>, m: Map<Seq<char>, ValueView>, i: int)
    requires
        0 <= i <= a.len(),
        forall|k: int| 0 <= k < a.len() ==> a[k] != '{',
        forall|k: int| 0 <= k < name.len() ==> name[k] != '}',
        !m.contains_key(name),
    ensures
        expand_from(a + seq!['{'] + name + seq!['}'] + b, i, m) == Err::<Seq<char>, Error>(Error::UndefinedVariable),
    decreases a.len() - i,
{
    let s = a + seq!['{'] + name + seq!['}'] + b;
    let p = a.len() as int;
    let n = name.len() as int;
    if i == p {
        assert(s[p] == '{');
        assert(s[p + n + 1] == '}');
        assert forall|k: int| p + 1 <= k < p + n + 1 implies s[k] != '}' by {
            assert(s[k] == name[k - p - 1]);
        }
        lemma_name_skip(s, p + 1, p + n + 1);
        assert(s.subrange(p + 1, p + n + 1) =~= name);
    } else {
        assert(s[i] == a[i]);
        lemma_unbound_from(a, name, b, m, i + 1);
    }
}

/// A text whose first placeholder names an unbound variable fails to expand
/// with `UndefinedVariable`, whatever text surrounds it.
pub proof fn lemma_unbound_placeholder(a: Seq<char>, name: Seq<char>, b: Seq<char>, m: Map<Seq<char>, ValueView>)
    requires
        forall|k: int| 0 <= k < a.len() ==> a[k] != '{',
        forall|k: int| 0 <= k < name.len() ==> name[k] != '}',
        !m.contains_key(name),
    ensures
        expand(a + seq!['{'] + name + seq!['}'] + b, m) == Err::<Seq<char>, Error>(Error::UndefinedVariable),
{
    lemma_unbound_from(a, name, b, m, 0);
}

} // verus!
