//! Knot, function and stitch headers: `=== name(a, ref b, -> c) ===`,
//! `=== function name(x) ===` and `= stitch`.
use vstd::prelude::*;
use crate::ast::strings_model;
use crate::expression::{char_vecs_model, path_identifier, spec_path_identifier, spec_split_top_level_commas, split_top_level_comma_chars};
use crate::text::{
    chars_of, rfind_char, find_char, slice_of, spec_find, spec_rfind, spec_strip_prefix, spec_trim,
    string_of, strip_prefix, trim,
};

verus! {

/// A flow header line.
#[derive(Debug, PartialEq)]
pub enum Header {
    Knot { name: String, parameters: Vec<String>, ref_parameters: Vec<String>, divert_parameters: Vec<String> },
    Function { name: String, parameters: Vec<String>, ref_parameters: Vec<String>, divert_parameters: Vec<String> },
    Stitch { name: String, parameters: Vec<String>, ref_parameters: Vec<String>, divert_parameters: Vec<String> },
}

/// A header's name and parameters: all of them in order, and those marked
/// `ref` and `->` by themselves.
pub struct SpecSignature {
    pub name: Seq<char>,
    pub parameters: Seq<Seq<char>>,
    pub ref_parameters: Seq<Seq<char>>,
    pub divert_parameters: Seq<Seq<char>>,
}

pub enum SpecHeader {
    Knot(SpecSignature),
    Function(SpecSignature),
    Stitch(SpecSignature),
}

impl Header {
    pub open spec fn model(self) -> SpecHeader {
        match self {
            Header::Knot { name, parameters, ref_parameters, divert_parameters } => SpecHeader::Knot(SpecSignature {
                name: name@,
                parameters: strings_model(parameters@),
                ref_parameters: strings_model(ref_parameters@),
                divert_parameters: strings_model(divert_parameters@),
            }),
            Header::Function { name, parameters, ref_parameters, divert_parameters } => SpecHeader::Function(SpecSignature {
                name: name@,
                parameters: strings_model(parameters@),
                ref_parameters: strings_model(ref_parameters@),
                divert_parameters: strings_model(divert_parameters@),
            }),
            Header::Stitch { name, parameters, ref_parameters, divert_parameters } => SpecHeader::Stitch(SpecSignature {
                name: name@,
                parameters: strings_model(parameters@),
                ref_parameters: strings_model(ref_parameters@),
                divert_parameters: strings_model(divert_parameters@),
            }),
        }
    }
}

/// `s` without the `c` characters at its start.
pub open spec fn spec_trim_start_char(s: Seq<char>, c: char) -> Seq<char>
    decreases s.len(),
{
    if s.len() > 0 && s[0] == c {
        spec_trim_start_char(s.skip(1), c)
    } else {
        s
    }
}

/// `s` without the `c` characters at its end.
pub open spec fn spec_trim_end_char(s: Seq<char>, c: char) -> Seq<char>
    decreases s.len(),
{
    if s.len() > 0 && s.last() == c {
        spec_trim_end_char(s.drop_last(), c)
    } else {
        s
    }
}

/// The parameters written in the pieces of a parameter list, empty pieces
/// skipped: `(all, ref, divert)`.
pub open spec fn spec_header_params(parts: Seq<Seq<char>>) -> (Seq<Seq<char>>, Seq<Seq<char>>, Seq<Seq<char>>)
    decreases parts.len(),
{
    if parts.len() == 0 {
        (Seq::empty(), Seq::empty(), Seq::empty())
    } else {
        let (p, r, d) = spec_header_params(parts.drop_last());
        let t = spec_trim(parts.last());
        if t.len() == 0 {
            (p, r, d)
        } else {
            match spec_strip_prefix(t, seq!['-', '>']) {
                Some(n) => (p.push(spec_trim(n)), r, d.push(spec_trim(n))),
                None => match spec_strip_prefix(t, seq!['r', 'e', 'f', ' ']) {
                    Some(n) => (p.push(spec_trim(n)), r.push(spec_trim(n)), d),
                    None => (p.push(t), r, d),
                },
            }
        }
    }
}

/// The signature `name(params)` or `name`; `None` when no name starts it.
pub open spec fn spec_header_signature(text: Seq<char>) -> Option<SpecSignature> {
    match (spec_find(text, seq!['(']), spec_rfind(text, ')')) {
        (Some(open), Some(close)) if close > open => match spec_path_identifier(spec_trim(text.take(open))) {
            None => None,
            Some(name) => {
                let (p, r, d) = spec_header_params(spec_split_top_level_commas(text.subrange(open + 1, close)));
                Some(SpecSignature { name, parameters: p, ref_parameters: r, divert_parameters: d })
            },
        },
        _ => match spec_path_identifier(text) {
            None => None,
            Some(name) => Some(SpecSignature { name, parameters: Seq::empty(), ref_parameters: Seq::empty(), divert_parameters: Seq::empty() }),
        },
    }
}

pub open spec fn function_word() -> Seq<char> {
    seq!['f', 'u', 'n', 'c', 't', 'i', 'o', 'n']
}

/// The header a line is: `==` starts a knot (a function when its name is
/// preceded by `function`), a single `=` a stitch.
pub open spec fn spec_parse_header(line: Seq<char>) -> Option<SpecHeader> {
    let t = spec_trim(line);
    if t.len() >= 2 && t[0] == '=' && t[1] == '=' {
        let inner = spec_trim(spec_trim_end_char(spec_trim_start_char(t, '='), '='));
        match spec_strip_prefix(inner, function_word()) {
            Some(rest) => match spec_header_signature(spec_trim(rest)) {
                Some(sig) => Some(SpecHeader::Function(sig)),
                None => None,
            },
            None => match spec_header_signature(inner) {
                Some(sig) => Some(SpecHeader::Knot(sig)),
                None => None,
            },
        }
    } else if t.len() >= 1 && t[0] == '=' {
        match spec_header_signature(spec_trim(spec_trim_start_char(t, '='))) {
            Some(sig) => Some(SpecHeader::Stitch(sig)),
            None => None,
        }
    } else {
        None
    }
}

proof fn lemma_trim_start_char_skip(s: Seq<char>, c: char, i: int)
    requires
        0 <= i <= s.len(),
        forall|j: int| 0 <= j < i ==> s[j] == c,
    ensures
        spec_trim_start_char(s, c) == spec_trim_start_char(s.skip(i), c),
    decreases i,
{
    if i > 0 {
        assert(s.skip(1).skip(i - 1) =~= s.skip(i));
        lemma_trim_start_char_skip(s.skip(1), c, i - 1);
    } else {
        assert(s.skip(0) =~= s);
    }
}

proof fn lemma_trim_end_char_take(s: Seq<char>, c: char, i: int)
    requires
        0 <= i <= s.len(),
        forall|j: int| i <= j < s.len() ==> s[j] == c,
    ensures
        spec_trim_end_char(s, c) == spec_trim_end_char(s.take(i), c),
    decreases s.len() - i,
{
    if i < s.len() {
        assert(s.drop_last().take(i) =~= s.take(i));
        lemma_trim_end_char_take(s.drop_last(), c, i);
    } else {
        assert(s.take(i) =~= s);
    }
}

/// `s` without the `c` characters at its start and end.
pub fn trim_char(s: &[char], c: char, end_too: bool) -> (r: Vec<char>)
    ensures
        end_too ==> r@ == spec_trim_end_char(spec_trim_start_char(s@, c), c),
        !end_too ==> r@ == spec_trim_start_char(s@, c),
{
    let n = s.len();
    let mut a: usize = 0;
    while a < n && s[a] == c
        invariant
            a <= n,
            n == s.len(),
            forall|j: int| 0 <= j < a ==> s@[j] == c,
        decreases n - a,
    {
        a = a + 1;
    }
    proof {
        lemma_trim_start_char_skip(s@, c, a as int);
    }
    let ghost rest = s@.skip(a as int);
    assert(!(rest.len() > 0 && rest[0] == c));
    assert(spec_trim_start_char(rest, c) == rest);
    if !end_too {
        return slice_of(s, a, n);
    }
    let mut b: usize = n;
    while b > a && s[b - 1] == c
        invariant
            a <= b <= n,
            n == s.len(),
            forall|j: int| b <= j < n ==> s@[j] == c,
        decreases b,
    {
        b = b - 1;
    }
    proof {
        lemma_trim_end_char_take(rest, c, b - a);
        let kept = rest.take(b - a);
        assert(kept =~= s@.subrange(a as int, b as int));
        assert(!(kept.len() > 0 && kept.last() == c));
        assert(spec_trim_end_char(kept, c) == kept);
    }
    slice_of(s, a, b)
}

proof fn lemma_header_params_step(parts: Seq<Seq<char>>, k: int)
    requires
        0 <= k < parts.len(),
    ensures
        parts.take(k + 1).drop_last() == parts.take(k),
        parts.take(k + 1).last() == parts[k],
{
    assert(parts.take(k + 1).drop_last() =~= parts.take(k));
}

/// The name and parameters of a header; see `spec_header_signature`.
fn parse_header_signature(text: &[char]) -> (r: Option<(String, Vec<String>, Vec<String>, Vec<String>)>)
    ensures
        match (r, spec_header_signature(text@)) {
            (Some((n, p, rf, d)), Some(sig)) => n@ == sig.name && strings_model(p@) == sig.parameters
                && strings_model(rf@) == sig.ref_parameters && strings_model(d@) == sig.divert_parameters,
            (None, None) => true,
            _ => false,
        },
{
    let open = find_char(text, '(');
    let close = rfind_char(text, ')');
    if let (Some(o), Some(c)) = (open, close) {
        if c > o {
            proof {
                crate::text::lemma_find_from_bounds(text@, seq!['('], 0);
            }
            let name = match path_identifier(&trim(&slice_of(text, 0, o))) {
                None => return None,
                Some(n) => n,
            };
            assert(text@.subrange(0, o as int) =~= text@.take(o as int));
            let parts = split_top_level_comma_chars(&slice_of(text, o + 1, c));
            let ghost pm = char_vecs_model(parts@);
            let mut parameters: Vec<String> = Vec::new();
            let mut ref_parameters: Vec<String> = Vec::new();
            let mut divert_parameters: Vec<String> = Vec::new();
            let mut k: usize = 0;
            assert(pm.take(0) =~= Seq::<Seq<char>>::empty());
            assert(strings_model(parameters@) =~= Seq::<Seq<char>>::empty());
            assert(strings_model(ref_parameters@) =~= Seq::<Seq<char>>::empty());
            assert(strings_model(divert_parameters@) =~= Seq::<Seq<char>>::empty());
            while k < parts.len()
                invariant
                    k <= parts.len(),
                    pm == char_vecs_model(parts@),
                    spec_header_params(pm.take(k as int)) == (strings_model(parameters@), strings_model(ref_parameters@), strings_model(divert_parameters@)),
                decreases parts.len() - k,
            {
                proof {
                    lemma_header_params_step(pm, k as int);
                }
                assert(pm[k as int] == parts@[k as int]@);
                let t = trim(&parts[k]);
                if t.len() > 0 {
                    let arrow = vec!['-', '>'];
                    let rf = vec!['r', 'e', 'f', ' '];
                    assert(arrow@ =~= seq!['-', '>']);
                    assert(rf@ =~= seq!['r', 'e', 'f', ' ']);
                    match strip_prefix(&t, &arrow) {
                        Some(n) => {
                            let name = string_of(&trim(&n));
                            let ghost pb = parameters@;
                            let ghost db = divert_parameters@;
                            parameters.push(string_of(&trim(&n)));
                            divert_parameters.push(name);
                            proof {
                                crate::ast::lemma_strings_model_push(pb, parameters@.last());
                                assert(parameters@ =~= pb.push(parameters@.last()));
                                crate::ast::lemma_strings_model_push(db, divert_parameters@.last());
                                assert(divert_parameters@ =~= db.push(divert_parameters@.last()));
                            }
                        },
                        None => match strip_prefix(&t, &rf) {
                            Some(n) => {
                                let name = string_of(&trim(&n));
                                let ghost pb = parameters@;
                                let ghost rb = ref_parameters@;
                                parameters.push(string_of(&trim(&n)));
                                ref_parameters.push(name);
                                proof {
                                    crate::ast::lemma_strings_model_push(pb, parameters@.last());
                                    assert(parameters@ =~= pb.push(parameters@.last()));
                                    crate::ast::lemma_strings_model_push(rb, ref_parameters@.last());
                                    assert(ref_parameters@ =~= rb.push(ref_parameters@.last()));
                                }
                            },
                            None => {
                                let ghost pb = parameters@;
                                parameters.push(string_of(&t));
                                proof {
                                    crate::ast::lemma_strings_model_push(pb, parameters@.last());
                                    assert(parameters@ =~= pb.push(parameters@.last()));
                                }
                            },
                        },
                    }
                }
                k = k + 1;
            }
            assert(pm.take(k as int) =~= pm);
            return Some((string_of(&name), parameters, ref_parameters, divert_parameters));
        }
    }
    match path_identifier(text) {
        None => None,
        Some(n) => {
            let p: Vec<String> = Vec::new();
            let rf: Vec<String> = Vec::new();
            let d: Vec<String> = Vec::new();
            assert(strings_model(p@) =~= Seq::<Seq<char>>::empty());
            assert(strings_model(rf@) =~= Seq::<Seq<char>>::empty());
            assert(strings_model(d@) =~= Seq::<Seq<char>>::empty());
            Some((string_of(&n), p, rf, d))
        },
    }
}

/// The header that `line` is, if it is one; see `spec_parse_header`.
pub fn parse_header(line: &str) -> (r: Option<Header>)
    ensures
        match (r, spec_parse_header(line@)) {
            (Some(h), Some(sh)) => h.model() == sh,
            (None, None) => true,
            _ => false,
        },
{
    let chars = chars_of(line);
    parse_header_chars(&chars)
}

/// The header that a line's characters make, if any.
pub fn parse_header_chars(chars: &[char]) -> (r: Option<Header>)
    ensures
        match (r, spec_parse_header(chars@)) {
            (Some(h), Some(sh)) => h.model() == sh,
            (None, None) => true,
            _ => false,
        },
{
    let t = trim(chars);
    if t.len() >= 2 && t[0] == '=' && t[1] == '=' {
        let inner = trim(&trim_char(&t, '=', true));
        let word = vec!['f', 'u', 'n', 'c', 't', 'i', 'o', 'n'];
        assert(word@ =~= function_word());
        match strip_prefix(&inner, &word) {
            Some(rest) => match parse_header_signature(&trim(&rest)) {
                Some((name, parameters, ref_parameters, divert_parameters)) => Some(Header::Function { name, parameters, ref_parameters, divert_parameters }),
                None => None,
            },
            None => match parse_header_signature(&inner) {
                Some((name, parameters, ref_parameters, divert_parameters)) => Some(Header::Knot { name, parameters, ref_parameters, divert_parameters }),
                None => None,
            },
        }
    } else if t.len() >= 1 && t[0] == '=' {
        match parse_header_signature(&trim(&trim_char(&t, '=', false))) {
            Some((name, parameters, ref_parameters, divert_parameters)) => Some(Header::Stitch { name, parameters, ref_parameters, divert_parameters }),
            None => None,
        }
    } else {
        None
    }
}

} // verus!
