//! Dotted paths to flows and weave points (`knot.stitch.label`).
use vstd::prelude::*;
use crate::ast::strings_model;
use crate::text::{chars_of, slice_of, string_of};

verus! {

/// The components joined by `.`.
pub open spec fn spec_join_dotted(cs: Seq<Seq<char>>) -> Seq<char>
    decreases cs.len(),
{
    if cs.len() == 0 {
        Seq::empty()
    } else if cs.len() == 1 {
        cs[0]
    } else {
        cs[0] + seq!['.'] + spec_join_dotted(cs.drop_first())
    }
}

/// The pieces of `s` between its `.` characters (at least one piece).
pub open spec fn spec_split_dots(s: Seq<char>) -> Seq<Seq<char>>
    decreases s.len(),
{
    match first_dot(s, 0) {
        None => seq![s],
        Some(k) => if 0 <= k < s.len() {
            seq![s.take(k)] + spec_split_dots(s.skip(k + 1))
        } else {
            seq![s]
        },
    }
}

/// Index of the first `.` at or after `i`.
pub open spec fn first_dot(s: Seq<char>, i: int) -> Option<int>
    decreases s.len() - i,
{
    if i < 0 || i >= s.len() {
        None
    } else if s[i] == '.' {
        Some(i)
    } else {
        first_dot(s, i + 1)
    }
}

/// The components of a dotted path: none for the empty path.
pub open spec fn spec_path_components(s: Seq<char>) -> Seq<Seq<char>> {
    if s.len() == 0 {
        Seq::empty()
    } else {
        spec_split_dots(s)
    }
}

proof fn lemma_first_dot(s: Seq<char>, i: int)
    requires
        0 <= i,
    ensures
        first_dot(s, i) matches Some(k) ==> i <= k < s.len() && s[k] == '.' && forall|t: int|
            i <= t < k ==> s[t] != '.',
        first_dot(s, i) is None ==> forall|t: int| i <= t < s.len() ==> s[t] != '.',
    decreases s.len() - i,
{
    if 0 <= i < s.len() && s[i] != '.' {
        lemma_first_dot(s, i + 1);
    }
}

/// Splitting on dots and joining with dots gives back the text.
pub proof fn lemma_join_split(s: Seq<char>)
    ensures
        spec_join_dotted(spec_split_dots(s)) == s,
        spec_split_dots(s).len() >= 1,
    decreases s.len(),
{
    lemma_first_dot(s, 0);
    match first_dot(s, 0) {
        None => {},
        Some(k) => {
            lemma_join_split(s.skip(k + 1));
            let rest = spec_split_dots(s.skip(k + 1));
            let all = seq![s.take(k)] + rest;
            assert(all.drop_first() =~= rest);
            assert(all[0] == s.take(k));
            assert(s.take(k) + seq!['.'] + s.skip(k + 1) =~= s);
        },
    }
}

/// No component holds a `.`.
pub open spec fn dot_free(cs: Seq<Seq<char>>) -> bool {
    forall|i: int, j: int| 0 <= i < cs.len() && 0 <= j < cs[i].len() ==> #[trigger] cs[i][j] != '.'
}

/// Joining components that hold no `.` and splitting the result again gives
/// back the components.
pub proof fn law_join_then_split(cs: Seq<Seq<char>>)
    requires
        cs.len() >= 1,
        dot_free(cs),
    ensures
        spec_split_dots(spec_join_dotted(cs)) == cs,
    decreases cs.len(),
{
    let j = spec_join_dotted(cs);
    if cs.len() == 1 {
        lemma_first_dot(cs[0], 0);
        assert(forall|t: int| 0 <= t < cs[0].len() ==> cs[0][t] != '.') by {
            assert forall|t: int| 0 <= t < cs[0].len() implies cs[0][t] != '.' by {
                assert(cs[0][t] != '.');
            }
        }
        assert(first_dot(cs[0], 0) is None);
        assert(spec_split_dots(cs[0]) =~= seq![cs[0]]);
        assert(cs =~= seq![cs[0]]);
    } else {
        let rest = cs.drop_first();
        assert(dot_free(rest)) by {
            assert forall|i: int, t: int| 0 <= i < rest.len() && 0 <= t < rest[i].len() implies #[trigger] rest[i][t] != '.' by {
                assert(rest[i] == cs[i + 1]);
            }
        }
        law_join_then_split(rest);
        let c0 = cs[0];
        let k = c0.len() as int;
        assert(j == c0 + seq!['.'] + spec_join_dotted(rest));
        lemma_first_dot(j, 0);
        assert(j[k] == '.');
        assert forall|t: int| 0 <= t < k implies j[t] != '.' by {
            assert(j[t] == c0[t]);
            assert(cs[0][t] != '.');
        }
        lemma_first_dot_is(j, 0, k);
        assert(j.take(k) =~= c0);
        assert(j.skip(k + 1) =~= spec_join_dotted(rest));
        assert(seq![c0] + rest =~= cs);
    }
}

proof fn lemma_first_dot_is(s: Seq<char>, i: int, k: int)
    requires
        0 <= i <= k < s.len(),
        s[k] == '.',
        forall|t: int| i <= t < k ==> s[t] != '.',
    ensures
        first_dot(s, i) == Some(k),
    decreases k - i,
{
    if i < k {
        lemma_first_dot_is(s, i + 1, k);
    }
}

/// A path to a flow or weave point, kept both as components and as dotted
/// text; the dotted text is always the components joined by `.`.
#[derive(Debug)]
pub struct ParsedPath {
    components: Vec<String>,
    dotted: String,
}

impl ParsedPath {
    pub closed spec fn spec_components(&self) -> Seq<Seq<char>> {
        strings_model(self.components@)
    }

    pub closed spec fn spec_dotted(&self) -> Seq<char> {
        self.dotted@
    }

    /// The dotted text is the components joined by `.`.
    pub closed spec fn wf(&self) -> bool {
        self.dotted@ == spec_join_dotted(strings_model(self.components@))
    }

    /// A path from its components.
    pub fn new(components: Vec<String>) -> (p: ParsedPath)
        ensures
            p.wf(),
            p.spec_components() == strings_model(components@),
            p.spec_dotted() == spec_join_dotted(strings_model(components@)),
    {
        let dotted = join_dotted(&components);
        ParsedPath { components, dotted }
    }

    /// A path from dotted text; the empty text has no components.
    pub fn from_dotted(path: &str) -> (p: ParsedPath)
        ensures
            p.wf(),
            p.spec_dotted() == path@,
            p.spec_components() == spec_path_components(path@),
    {
        let chars = chars_of(path);
        let components = if chars.len() == 0 {
            let v: Vec<String> = Vec::new();
            assert(strings_model(v@) =~= Seq::<Seq<char>>::empty());
            v
        } else {
            split_dots(&chars)
        };
        proof {
            if chars@.len() > 0 {
                lemma_join_split(chars@);
            } else {
                assert(chars@ =~= Seq::<char>::empty());
            }
        }
        ParsedPath { components, dotted: string_of(&chars) }
    }

    pub fn components(&self) -> (r: &[String])
        ensures
            strings_model(r@) == self.spec_components(),
    {
        self.components.as_slice()
    }

    pub fn first_component(&self) -> (r: Option<&str>)
        ensures
            r matches Some(c) ==> self.spec_components().len() > 0 && c@ == self.spec_components()[0],
            r is None ==> self.spec_components().len() == 0,
    {
        if self.components.len() > 0 {
            Some(self.components[0].as_str())
        } else {
            None
        }
    }

    pub fn number_of_components(&self) -> (n: usize)
        ensures
            n == self.spec_components().len(),
    {
        self.components.len()
    }

    pub fn as_str(&self) -> (r: &str)
        ensures
            r@ == self.spec_dotted(),
    {
        self.dotted.as_str()
    }

    pub fn is_empty(&self) -> (r: bool)
        ensures
            r == (self.spec_components().len() == 0),
    {
        self.components.len() == 0
    }
}

/// The components joined by `.`.
pub fn join_dotted(components: &Vec<String>) -> (s: String)
    ensures
        s@ == spec_join_dotted(strings_model(components@)),
{
    let mut out: Vec<char> = Vec::new();
    let mut i = components.len();
    let ghost all = strings_model(components@);
    // Build from the back: out == join(all.skip(i)).
    assert(all.skip(i as int) =~= Seq::<Seq<char>>::empty());
    while i > 0
        invariant
            i <= components.len(),
            all == strings_model(components@),
            out@ == spec_join_dotted(all.skip(i as int)),
            (i < components.len()) == (all.skip(i as int).len() > 0),
        decreases i,
    {
        i = i - 1;
        let piece = chars_of(components[i].as_str());
        let ghost prev = out@;
        let ghost tail = all.skip(i + 1);
        assert(all.skip(i as int).drop_first() =~= tail);
        assert(all.skip(i as int)[0] == piece@);
        if i + 1 < components.len() {
            let mut next = piece;
            next.push('.');
            let mut k: usize = 0;
            let ghost head = next@;
            while k < out.len()
                invariant
                    k <= out.len(),
                    next@ == head + out@.take(k as int),
                decreases out.len() - k,
            {
                next.push(out[k]);
                k = k + 1;
                assert(next@ =~= head + out@.take(k as int));
            }
            assert(out@.take(k as int) =~= out@);
            assert(next@ =~= piece@ + seq!['.'] + prev);
            out = next;
        } else {
            out = piece;
        }
    }
    assert(all.skip(0) =~= all);
    string_of(&out)
}

/// The pieces of `s` between its dots.
pub fn split_dots(s: &[char]) -> (parts: Vec<String>)
    ensures
        strings_model(parts@) == spec_split_dots(s@),
{
    let mut parts: Vec<String> = Vec::new();
    let mut start: usize = 0;
    let n = s.len();
    assert(s@.skip(0) =~= s@);
    loop
        invariant
            n == s.len(),
            start <= n,
            strings_model(parts@) + spec_split_dots(s@.skip(start as int)) == spec_split_dots(s@),
        decreases n - start,
    {
        let ghost rest = s@.skip(start as int);
        let mut j = start;
        while j < n && s[j] != '.'
            invariant
                start <= j <= n == s.len(),
                forall|t: int| start <= t < j ==> s@[t] != '.',
            decreases n - j,
        {
            j = j + 1;
        }
        let piece = string_of(&slice_of(s, start, j));
        let ghost before = strings_model(parts@);
        parts.push(piece);
        assert(strings_model(parts@) =~= before.push(piece@));
        proof {
            lemma_first_dot(rest, 0);
        }
        if j < n {
            proof {
                assert(first_dot(rest, 0) == Some(j - start)) by {
                    lemma_first_dot_at(rest, 0, j - start);
                }
                assert(piece@ =~= rest.take(j - start));
                assert(rest.skip(j - start + 1) =~= s@.skip(j + 1));
                assert(strings_model(parts@) + spec_split_dots(s@.skip(j + 1)) =~= before + (seq![piece@]
                    + spec_split_dots(rest.skip(j - start + 1))));
            }
            start = j + 1;
        } else {
            proof {
                assert(first_dot(rest, 0) is None) by {
                    lemma_first_dot_none(rest, 0);
                }
                assert(piece@ =~= rest);
                assert(strings_model(parts@) =~= before + seq![piece@]);
            }
            return parts;
        }
    }
}

proof fn lemma_first_dot_at(s: Seq<char>, i: int, j: int)
    requires
        0 <= i <= j < s.len(),
        s[j] == '.',
        forall|t: int| i <= t < j ==> s[t] != '.',
    ensures
        first_dot(s, i) == Some(j),
    decreases j - i,
{
    if i < j {
        lemma_first_dot_at(s, i + 1, j);
    }
}

proof fn lemma_first_dot_none(s: Seq<char>, i: int)
    requires
        0 <= i,
        forall|t: int| i <= t < s.len() ==> s[t] != '.',
    ensures
        first_dot(s, i) is None,
    decreases s.len() - i,
{
    if i < s.len() {
        lemma_first_dot_none(s, i + 1);
    }
}

} // verus!
