//! Named texts that stand in for `{NAME}` in other texts.
use vstd::prelude::*;

use crate::sorting;
use crate::text;
use crate::text::{joined3, owned, replace_text, same_text};

verus! {

/// A name and the text that stands in for it.
#[derive(Debug, Clone, PartialEq, Eq)]
pub struct Variable {
    pub name: String,
    pub value: String,
}

#[verifier::ext_equal]
pub struct VariableView {
    pub name: Seq<char>,
    pub value: Seq<char>,
}

impl View for Variable {
    type V = VariableView;

    open spec fn view(&self) -> VariableView {
        VariableView { name: self.name@, value: self.value@ }
    }
}

/// Variables, each name at most once, in the order in which the names were first set.
#[derive(Debug, PartialEq, Eq)]
pub struct Variables {
    entries: Vec<Variable>,
}

/// The index from `i` on at which `name` stands.
pub open spec fn position(s: Seq<VariableView>, name: Seq<char>, i: int) -> Option<int>
    decreases s.len() - i,
{
    if i < 0 || i >= s.len() {
        None
    } else if s[i].name == name {
        Some(i)
    } else {
        position(s, name, i + 1)
    }
}

/// The text that `name` stands for.
pub open spec fn value_of(s: Seq<VariableView>, name: Seq<char>) -> Option<Seq<char>> {
    match position(s, name, 0) {
        Some(i) => Some(s[i].value),
        None => None,
    }
}

/// The variables once `name` stands for `value`.
pub open spec fn with_value(s: Seq<VariableView>, name: Seq<char>, value: Seq<char>) -> Seq<
    VariableView,
> {
    match position(s, name, 0) {
        Some(i) => s.update(i, VariableView { name, value }),
        None => s.push(VariableView { name, value }),
    }
}

/// No name occurs twice.
pub open spec fn distinct(s: Seq<VariableView>) -> bool {
    forall|i: int, j: int|
        0 <= i < s.len() && 0 <= j < s.len() && (#[trigger] s[i]).name == (#[trigger] s[j]).name
            ==> i == j
}

proof fn lemma_position(s: Seq<VariableView>, name: Seq<char>, i: int)
    requires
        0 <= i,
    ensures
        match position(s, name, i) {
            Some(k) => i <= k < s.len() && s[k].name == name && forall|j: int|
                i <= j < k ==> (#[trigger] s[j]).name != name,
            None => forall|j: int| i <= j < s.len() ==> (#[trigger] s[j]).name != name,
        },
    decreases s.len() - i,
{
    if i < s.len() && s[i].name != name {
        lemma_position(s, name, i + 1);
    }
}

proof fn lemma_position_is(s: Seq<VariableView>, name: Seq<char>, i: int, k: int)
    requires
        0 <= i <= k < s.len(),
        s[k].name == name,
        forall|j: int| i <= j < k ==> (#[trigger] s[j]).name != name,
    ensures
        position(s, name, i) == Some(k),
    decreases k - i,
{
    if i < k {
        assert(s[i].name != name);
        lemma_position_is(s, name, i + 1, k);
    }
}

/// Setting a variable sets that variable and no other, and keeps names distinct.
pub proof fn law_set_variable(
    s: Seq<VariableView>,
    name: Seq<char>,
    value: Seq<char>,
    other: Seq<char>,
)
    requires
        distinct(s),
    ensures
        distinct(with_value(s, name, value)),
        value_of(with_value(s, name, value), name) == Some(value),
        other != name ==> value_of(with_value(s, name, value), other) == value_of(s, other),
{
    let t = with_value(s, name, value);
    lemma_position(s, name, 0);
    lemma_position(s, other, 0);
    lemma_position(t, other, 0);
    match position(s, name, 0) {
        Some(i) => {
            lemma_position_is(t, name, 0, i);
        },
        None => {
            lemma_position_is(t, name, 0, s.len() as int);
        },
    }
    if other != name {
        match position(s, other, 0) {
            Some(k) => {
                assert forall|j: int| 0 <= j < k implies (#[trigger] t[j]).name != other by {
                    assert(s[j].name != other);
                }
                lemma_position_is(t, other, 0, k);
            },
            None => {
                match position(t, other, 0) {
                    Some(k) => {
                        assert(t[k].name == other);
                        if k < s.len() {
                            assert(s[k].name != other);
                        }
                    },
                    None => {},
                }
            },
        }
    }
}

/// `s` with each `{name}` replaced by the value, variable by variable from index `i` on.
pub open spec fn filled_in(vars: Seq<VariableView>, i: int, s: Seq<char>) -> Seq<char>
    decreases vars.len() - i,
{
    if i < 0 || i >= vars.len() {
        s
    } else {
        filled_in(vars, i + 1, text::replaced(s, "{"@ + vars[i].name + "}"@, vars[i].value))
    }
}

/// The variables once those of `more` from index `i` on are set as well.
pub open spec fn with_all(s: Seq<VariableView>, more: Seq<VariableView>, i: int) -> Seq<
    VariableView,
>
    decreases more.len() - i,
{
    if i < 0 || i >= more.len() {
        s
    } else {
        with_all(with_value(s, more[i].name, more[i].value), more, i + 1)
    }
}

impl Variables {
    /// The variables in order.
    pub closed spec fn list(&self) -> Seq<VariableView> {
        sorting::views(self.entries@)
    }

    /// No variable.
    pub fn new() -> (r: Self)
        ensures
            r@ == Seq::<VariableView>::empty(),
    {
        let entries: Vec<Variable> = Vec::new();
        proof {
            assert(sorting::views(entries@) =~= Seq::empty());
        }
        Variables { entries }
    }

    fn find(&self, name: &str) -> (r: Option<usize>)
        ensures
            match r {
                Some(i) => position(self@, name@, 0) == Some(i as int) && i < self@.len(),
                None => position(self@, name@, 0) is None,
            },
    {
        let mut i: usize = 0;
        while i < self.entries.len()
            invariant
                i <= self.entries@.len(),
                self@ == sorting::views(self.entries@),
                position(self@, name@, 0) == position(self@, name@, i as int),
            decreases self.entries@.len() - i,
        {
            proof {
                assert(self@[i as int] == self.entries@[i as int]@);
            }
            if same_text(self.entries[i].name.as_str(), name) {
                return Some(i);
            }
            i += 1;
        }
        None
    }

    /// Lets `name` stand for `value`.
    pub fn insert(&mut self, name: &str, value: &str)
        ensures
            final(self)@ == with_value(old(self)@, name@, value@),
    {
        let entry = Variable { name: owned(name), value: owned(value) };
        match self.find(name) {
            Some(i) => {
                self.entries.set(i, entry);
            },
            None => {
                self.entries.push(entry);
            },
        }
        proof {
            assert(self@ =~= with_value(old(self)@, name@, value@));
        }
    }

    /// Sets all variables of `more`.
    pub fn insert_all(&mut self, more: &Variables)
        ensures
            final(self)@ == with_all(old(self)@, more@, 0),
    {
        let mut i: usize = 0;
        while i < more.entries.len()
            invariant
                i <= more.entries@.len(),
                more@ == sorting::views(more.entries@),
                with_all(old(self)@, more@, 0) == with_all(self@, more@, i as int),
            decreases more.entries@.len() - i,
        {
            proof {
                assert(more@[i as int] == more.entries@[i as int]@);
            }
            self.insert(more.entries[i].name.as_str(), more.entries[i].value.as_str());
            i += 1;
        }
    }

    /// The text that `name` stands for.
    pub fn get(&self, name: &str) -> (r: Option<String>)
        ensures
            text::optional(r) == value_of(self@, name@),
    {
        match self.find(name) {
            Some(i) => Some(owned(self.entries[i].value.as_str())),
            None => None,
        }
    }

    /// The variables one by one.
    pub fn into_list(self) -> (r: Vec<Variable>)
        ensures
            sorting::views(r@) == self@,
    {
        self.entries
    }

    /// `s` with each `{name}` replaced by the value that it stands for.
    pub fn fill_in(&self, s: &str) -> (r: String)
        ensures
            r@ == filled_in(self@, 0, s@),
    {
        let mut out = owned(s);
        let mut i: usize = 0;
        while i < self.entries.len()
            invariant
                i <= self.entries@.len(),
                self@ == sorting::views(self.entries@),
                filled_in(self@, 0, s@) == filled_in(self@, i as int, out@),
            decreases self.entries@.len() - i,
        {
            proof {
                assert(self@[i as int] == self.entries@[i as int]@);
                reveal_strlit("{");
            }
            let pattern = joined3("{", self.entries[i].name.as_str(), "}");
            out = replace_text(out.as_str(), pattern.as_str(), self.entries[i].value.as_str());
            i += 1;
        }
        out
    }
}

impl View for Variables {
    type V = Seq<VariableView>;

    open spec fn view(&self) -> Seq<VariableView> {
        self.list()
    }
}

impl Clone for Variables {
    fn clone(&self) -> (r: Self)
        ensures
            r@ == self@,
    {
        let mut entries: Vec<Variable> = Vec::new();
        let mut i: usize = 0;
        proof {
            assert(sorting::views(entries@) =~= sorting::views(self.entries@).take(0));
        }
        while i < self.entries.len()
            invariant
                i <= self.entries@.len(),
                sorting::views(entries@) == sorting::views(self.entries@).take(i as int),
            decreases self.entries@.len() - i,
        {
            let entry = &self.entries[i];
            let copy = Variable {
                name: owned(entry.name.as_str()),
                value: owned(entry.value.as_str()),
            };
            let ghost before = sorting::views(entries@);
            entries.push(copy);
            i += 1;
            proof {
                assert(sorting::views(entries@) =~= before.push(copy@));
                assert(copy@ == sorting::views(self.entries@)[i - 1]);
                assert(sorting::views(entries@) =~= sorting::views(self.entries@).take(i as int));
            }
        }
        proof {
            assert(sorting::views(self.entries@).take(i as int) =~= sorting::views(self.entries@));
        }
        Variables { entries }
    }
}

} // verus!
