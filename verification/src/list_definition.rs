//! List literals and list definitions of the parsed hierarchy: the items
//! of a definition and the values they are numbered with.
use vstd::prelude::*;
use crate::text::{chars_eq, chars_of, concat, string_of};

verus! {

/// A list literal: the identifiers of its items, when it names any.
#[derive(Debug, Clone)]
pub struct List {
    item_identifier_list: Option<Vec<String>>,
}

impl List {
    pub closed spec fn spec_items(&self) -> Option<Seq<String>> {
        match self.item_identifier_list {
            Some(v) => Some(v@),
            None => None,
        }
    }

    pub fn new(item_identifier_list: Option<Vec<String>>) -> (l: List)
        ensures
            l.spec_items() == (match item_identifier_list {
                Some(v) => Some(v@),
                None => None::<Seq<String>>,
            }),
    {
        List { item_identifier_list }
    }

    pub fn item_identifier_list(&self) -> (r: Option<&[String]>)
        ensures
            r matches Some(s) ==> self.spec_items() == Some(s@),
            r is None ==> self.spec_items() is None,
    {
        match &self.item_identifier_list {
            Some(v) => Some(v.as_slice()),
            None => None,
        }
    }

    /// Whether the literal names no item.
    pub fn is_empty(&self) -> (r: bool)
        ensures
            r == (match self.spec_items() {
                Some(s) => s.len() == 0,
                None => true,
            }),
    {
        match &self.item_identifier_list {
            Some(v) => v.len() == 0,
            None => true,
        }
    }
}

/// An item of a list definition: its name, whether it starts out in the
/// list, the value written for it, and the value it is numbered with.
#[derive(Debug, Clone)]
pub struct ListElementDefinition {
    identifier: String,
    explicit_value: Option<i32>,
    series_value: i32,
    in_initial_list: bool,
}

impl ListElementDefinition {
    pub closed spec fn spec_name(&self) -> Seq<char> {
        self.identifier@
    }

    pub closed spec fn spec_explicit_value(&self) -> Option<i32> {
        self.explicit_value
    }

    pub closed spec fn spec_series_value(&self) -> i32 {
        self.series_value
    }

    pub closed spec fn spec_in_initial_list(&self) -> bool {
        self.in_initial_list
    }

    /// An item not numbered yet (its value is 0 until its definition
    /// numbers it).
    pub fn new(identifier: &str, in_initial_list: bool, explicit_value: Option<i32>) -> (d: ListElementDefinition)
        ensures
            d.spec_name() == identifier@,
            d.spec_in_initial_list() == in_initial_list,
            d.spec_explicit_value() == explicit_value,
            d.spec_series_value() == 0,
    {
        ListElementDefinition {
            identifier: string_of(&chars_of(identifier)),
            explicit_value,
            series_value: 0,
            in_initial_list,
        }
    }

    pub fn name(&self) -> (r: &str)
        ensures
            r@ == self.spec_name(),
    {
        self.identifier.as_str()
    }

    pub fn explicit_value(&self) -> (r: Option<i32>)
        ensures
            r == self.spec_explicit_value(),
    {
        self.explicit_value
    }

    pub fn series_value(&self) -> (r: i32)
        ensures
            r == self.spec_series_value(),
    {
        self.series_value
    }

    pub fn in_initial_list(&self) -> (r: bool)
        ensures
            r == self.spec_in_initial_list(),
    {
        self.in_initial_list
    }

    /// The item's name qualified by its list's: `list.item`.
    pub fn full_name(&self, parent_list_name: &str) -> (r: String)
        ensures
            r@ == parent_list_name@ + seq!['.'] + self.spec_name(),
    {
        let mut s = chars_of(parent_list_name);
        s.push('.');
        string_of(&concat(&s, &chars_of(self.identifier.as_str())))
    }
}

/// The values the items from `i` on are numbered with, `cur` being the one
/// the next item takes unless it has a value of its own; each item's
/// successor takes one more than it.
pub open spec fn spec_series_from(e: Seq<Option<i32>>, i: int, cur: int) -> Seq<int>
    decreases e.len() - i,
{
    if i < 0 || i >= e.len() {
        Seq::empty()
    } else {
        let v = match e[i] {
            Some(x) => x as int,
            None => cur,
        };
        seq![v] + spec_series_from(e, i + 1, v + 1)
    }
}

/// Numbering the items from `i` on stays below the largest `i32` (the
/// value after the last one included).
pub open spec fn spec_series_fits(e: Seq<Option<i32>>, i: int, cur: int) -> bool
    decreases e.len() - i,
{
    if i < 0 || i >= e.len() {
        true
    } else {
        let v = match e[i] {
            Some(x) => x as int,
            None => cur,
        };
        v < i32::MAX && spec_series_fits(e, i + 1, v + 1)
    }
}

pub open spec fn explicit_values(items: Seq<ListElementDefinition>) -> Seq<Option<i32>> {
    items.map_values(|d: ListElementDefinition| d.spec_explicit_value())
}

/// The index of the first item named `name`, from `i` on.
pub open spec fn spec_index_named(items: Seq<ListElementDefinition>, name: Seq<char>, i: int) -> Option<int>
    decreases items.len() - i,
{
    if i < 0 || i >= items.len() {
        None
    } else if items[i].spec_name() == name {
        Some(i)
    } else {
        spec_index_named(items, name, i + 1)
    }
}

/// A list definition: its name, once set, and its items.
#[derive(Debug, Clone)]
pub struct ListDefinition {
    identifier: Option<String>,
    item_definitions: Vec<ListElementDefinition>,
}

impl ListDefinition {
    pub closed spec fn spec_identifier(&self) -> Option<Seq<char>> {
        match self.identifier {
            Some(s) => Some(s@),
            None => None,
        }
    }

    pub closed spec fn spec_items(&self) -> Seq<ListElementDefinition> {
        self.item_definitions@
    }

    /// A definition of `item_definitions`, numbered: an item with a value
    /// of its own takes it, any other one more than the item before it (the
    /// first one 1).
    pub fn new(item_definitions: Vec<ListElementDefinition>) -> (d: ListDefinition)
        requires
            spec_series_fits(explicit_values(item_definitions@), 0, 1),
        ensures
            d.spec_identifier() is None,
            d.spec_items().len() == item_definitions@.len(),
            forall|i: int| 0 <= i < item_definitions@.len() ==> {
                &&& (#[trigger] d.spec_items()[i]).spec_name() == item_definitions@[i].spec_name()
                &&& d.spec_items()[i].spec_explicit_value() == item_definitions@[i].spec_explicit_value()
                &&& d.spec_items()[i].spec_in_initial_list() == item_definitions@[i].spec_in_initial_list()
                &&& d.spec_items()[i].spec_series_value() == spec_series_from(explicit_values(item_definitions@), 0, 1)[i]
            },
    {
        let ghost e = explicit_values(item_definitions@);
        let ghost orig = item_definitions@;
        let mut items = item_definitions;
        let mut current: i32 = 1;
        let mut i: usize = 0;
        proof {
            lemma_series_len(e, 0, 1);
        }
        while i < items.len()
            invariant
                i <= items.len(),
                items@.len() == orig.len(),
                e == explicit_values(orig),
                spec_series_fits(e, i as int, current as int),
                spec_series_from(e, 0, 1) == spec_series_from(e, 0, 1).take(i as int) + spec_series_from(e, i as int, current as int),
                spec_series_from(e, 0, 1).len() == orig.len(),
                forall|j: int| 0 <= j < orig.len() ==> {
                    &&& (#[trigger] items@[j]).spec_name() == orig[j].spec_name()
                    &&& items@[j].spec_explicit_value() == orig[j].spec_explicit_value()
                    &&& items@[j].spec_in_initial_list() == orig[j].spec_in_initial_list()
                },
                forall|j: int| 0 <= j < i ==> (#[trigger] items@[j]).spec_series_value() == spec_series_from(e, 0, 1)[j],
            decreases items.len() - i,
        {
            let ghost rest = spec_series_from(e, i as int, current as int);
            if let Some(v) = items[i].explicit_value {
                current = v;
            }
            assert(rest[0] == current as int);
            let item = ListElementDefinition {
                identifier: string_of(&chars_of(items[i].identifier.as_str())),
                explicit_value: items[i].explicit_value,
                series_value: current,
                in_initial_list: items[i].in_initial_list,
            };
            items.set(i, item);
            current = current + 1;
            proof {
                let whole = spec_series_from(e, 0, 1);
                assert(whole.take(i + 1) =~= whole.take(i as int).push(rest[0]));
                assert(rest == seq![rest[0]] + spec_series_from(e, i + 1, current as int));
                assert(whole =~= whole.take(i + 1) + spec_series_from(e, i + 1, current as int));
            }
            i = i + 1;
        }
        ListDefinition { identifier: None, item_definitions: items }
    }

    pub fn identifier(&self) -> (r: Option<&str>)
        ensures
            r matches Some(s) ==> self.spec_identifier() == Some(s@),
            r is None ==> self.spec_identifier() is None,
    {
        match &self.identifier {
            Some(s) => Some(s.as_str()),
            None => None,
        }
    }

    pub fn set_identifier(&mut self, identifier: &str)
        ensures
            final(self).spec_identifier() == Some(identifier@),
            final(self).spec_items() == old(self).spec_items(),
    {
        self.identifier = Some(string_of(&chars_of(identifier)));
    }

    pub fn item_definitions(&self) -> (r: &[ListElementDefinition])
        ensures
            r@ == self.spec_items(),
    {
        self.item_definitions.as_slice()
    }

    /// The first item named `item_name`.
    pub fn item_named(&self, item_name: &str) -> (r: Option<&ListElementDefinition>)
        ensures
            match spec_index_named(self.spec_items(), item_name@, 0) {
                Some(k) => r == Some(&self.spec_items()[k]),
                None => r is None,
            },
    {
        let key = chars_of(item_name);
        let mut i: usize = 0;
        while i < self.item_definitions.len()
            invariant
                i <= self.item_definitions.len(),
                key@ == item_name@,
                spec_index_named(self.spec_items(), item_name@, i as int) == spec_index_named(self.spec_items(), item_name@, 0),
            decreases self.item_definitions.len() - i,
        {
            if chars_eq(&chars_of(self.item_definitions[i].identifier.as_str()), &key) {
                return Some(&self.item_definitions[i]);
            }
            i = i + 1;
        }
        None
    }
}


proof fn lemma_series_at(e: Seq<Option<i32>>, j: int, cur: int, i: int)
    requires
        0 <= j <= i < e.len(),
    ensures
        spec_series_from(e, j, cur)[i - j] == (match e[i] {
            Some(x) => x as int,
            None => if i == j { cur } else { spec_series_from(e, j, cur)[i - j - 1] + 1 },
        }),
    decreases i - j,
{
    let v = match e[j] {
        Some(x) => x as int,
        None => cur,
    };
    lemma_series_len(e, j + 1, v + 1);
    let rest = spec_series_from(e, j + 1, v + 1);
    assert(spec_series_from(e, j, cur) == seq![v] + rest);
    if i > j {
        lemma_series_at(e, j + 1, v + 1, i);
    }
}

/// How a definition numbers its items: an item with a value of its own
/// takes it; any other item takes one more than the item before it, and
/// the first item 1.
pub proof fn law_series_numbering(e: Seq<Option<i32>>, i: int)
    requires
        0 <= i < e.len(),
    ensures
        spec_series_from(e, 0, 1)[i] == (match e[i] {
            Some(x) => x as int,
            None => if i == 0 { 1 } else { spec_series_from(e, 0, 1)[i - 1] + 1 },
        }),
{
    lemma_series_at(e, 0, 1, i);
}

proof fn lemma_series_len(e: Seq<Option<i32>>, i: int, cur: int)
    requires
        0 <= i <= e.len(),
    ensures
        spec_series_from(e, i, cur).len() == e.len() - i,
    decreases e.len() - i,
{
    if i < e.len() {
        let v = match e[i] {
            Some(x) => x as int,
            None => cur,
        };
        lemma_series_len(e, i + 1, v + 1);
    }
}

} // verus!
