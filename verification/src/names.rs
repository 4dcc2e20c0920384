//! Tests on an entity's display name.
//!
//! A name test is one of four string comparisons, or a list of tests of
//! which at least one has to hold. Comparisons are exact: upper and lower
//! case differ.

use vstd::prelude::*;

verus! {

/// A test on the display name of an entity.
#[derive(Debug)]
pub enum NameCriteria {
    /// Holds when at least one of the listed tests holds.
    Any(Vec<NameCriteria>),
    /// The name is exactly this text.
    Equals(String),
    /// The name has this text somewhere in it.
    Contains(String),
    /// The name begins with this text.
    StartsWith(String),
    /// The name ends with this text.
    EndsWith(String),
}

/// What a [`NameCriteria`] says, over sequences of characters.
pub enum NameRule {
    Any(Seq<NameRule>),
    Equals(Seq<char>),
    Contains(Seq<char>),
    StartsWith(Seq<char>),
    EndsWith(Seq<char>),
}

/// `part` stands in `text` from position `at` on.
pub open spec fn occurs_at(text: Seq<char>, part: Seq<char>, at: int) -> bool {
    &&& 0 <= at
    &&& at + part.len() <= text.len()
    &&& text.subrange(at, at + part.len()) =~= part
}

/// `part` stands somewhere in `text`.
pub open spec fn has_substring(text: Seq<char>, part: Seq<char>) -> bool {
    exists|at: int| occurs_at(text, part, at)
}

impl NameRule {
    /// Whether a name passes the test.
    pub open spec fn matches(self, name: Seq<char>) -> bool
        decreases self,
    {
        match self {
            NameRule::Any(rules) => exists|i: int|
                0 <= i < rules.len() && (#[trigger] rules[i]).matches(name),
            NameRule::Equals(text) => name =~= text,
            NameRule::Contains(text) => has_substring(name, text),
            NameRule::StartsWith(text) => text.is_prefix_of(name),
            NameRule::EndsWith(text) => text.is_suffix_of(name),
        }
    }
}

impl View for NameCriteria {
    type V = NameRule;

    open spec fn view(&self) -> NameRule
        decreases self,
    {
        match self {
            NameCriteria::Any(list) => NameRule::Any(
                Seq::new(
                    list@.len(),
                    |i: int|
                        if 0 <= i < list@.len() {
                            list@[i].view()
                        } else {
                            NameRule::Any(Seq::empty())
                        },
                ),
            ),
            NameCriteria::Equals(text) => NameRule::Equals(text@),
            NameCriteria::Contains(text) => NameRule::Contains(text@),
            NameCriteria::StartsWith(text) => NameRule::StartsWith(text@),
            NameCriteria::EndsWith(text) => NameRule::EndsWith(text@),
        }
    }
}

/// The views of a list of tests, in order.
pub open spec fn rules_of(list: Seq<NameCriteria>) -> Seq<NameRule> {
    Seq::new(list.len(), |i: int| list[i]@)
}

/// The view of `Any(list)` lists the views of the members of `list`.
pub proof fn lemma_any_view(list: Vec<NameCriteria>)
    ensures
        NameCriteria::Any(list)@ == NameRule::Any(rules_of(list@)),
{
    let shown = NameCriteria::Any(list)@;
    assert(shown is Any);
    assert(shown->Any_0 =~= rules_of(list@));
}

/// A list of tests passes a name exactly when one of its members does.
pub proof fn lemma_any_matches(rules: Seq<NameRule>, name: Seq<char>)
    ensures
        NameRule::Any(rules).matches(name) <==> exists|i: int|
            0 <= i < rules.len() && (#[trigger] rules[i]).matches(name),
{
    let whole = NameRule::Any(rules);
    assert(whole->Any_0 == rules);
}

/// `str::contains` with a string as the pattern. Trusted: the result is true
/// exactly when the characters of `part` stand, in order and side by side,
/// somewhere in `text`; an empty `part` is found in every text.
#[verifier::external_body]
fn str_contains(text: &str, part: &str) -> (found: bool)
    ensures
        found == has_substring(text@, part@),
{
    text.contains(part)
}

/// `str::starts_with` with a string as the pattern. Trusted: the result is
/// true exactly when `text` begins with the characters of `part`.
#[verifier::external_body]
fn str_starts_with(text: &str, part: &str) -> (found: bool)
    ensures
        found == part@.is_prefix_of(text@),
{
    text.starts_with(part)
}

/// `str::ends_with` with a string as the pattern. Trusted: the result is
/// true exactly when `text` ends with the characters of `part`.
#[verifier::external_body]
fn str_ends_with(text: &str, part: &str) -> (found: bool)
    ensures
        found == part@.is_suffix_of(text@),
{
    text.ends_with(part)
}

impl Clone for NameCriteria {
    fn clone(&self) -> (copy: Self)
        ensures
            copy@ == self@,
    {
        self.duplicate()
    }
}

impl NameCriteria {
    /// A copy that says the same.
    pub fn duplicate(&self) -> (copy: Self)
        ensures
            copy@ == self@,
        decreases self,
    {
        match self {
            NameCriteria::Any(list) => {
                let mut copies: Vec<NameCriteria> = Vec::new();
                let mut i: usize = 0;
                while i < list.len()
                    invariant
                        i <= list.len(),
                        copies@.len() == i,
                        *self == NameCriteria::Any(*list),
                        forall|j: int| 0 <= j < i ==> (#[trigger] copies@[j])@ == list@[j]@,
                    decreases list.len() - i,
                {
                    assert(self->Any_0 == *list);
                    let member = list[i].duplicate();
                    copies.push(member);
                    i += 1;
                }
                proof {
                    lemma_any_view(*list);
                    lemma_any_view(copies);
                    assert(rules_of(copies@) =~= rules_of(list@));
                }
                NameCriteria::Any(copies)
            },
            NameCriteria::Equals(text) => NameCriteria::Equals(text.clone()),
            NameCriteria::Contains(text) => NameCriteria::Contains(text.clone()),
            NameCriteria::StartsWith(text) => NameCriteria::StartsWith(text.clone()),
            NameCriteria::EndsWith(text) => NameCriteria::EndsWith(text.clone()),
        }
    }
}

impl NameCriteria {
    /// Decides whether `name` passes this test.
    pub fn eval(&self, name: &str) -> (hit: bool)
        ensures
            hit == self@.matches(name@),
        decreases self,
    {
        match self {
            NameCriteria::Any(list) => {
                proof {
                    lemma_any_view(*list);
                }
                let mut i: usize = 0;
                while i < list.len()
                    invariant
                        i <= list.len(),
                        self@ == NameRule::Any(rules_of(list@)),
                        *self == NameCriteria::Any(*list),
                        forall|j: int| 0 <= j < i ==> !(#[trigger] rules_of(list@)[j]).matches(name@),
                    decreases list.len() - i,
                {
                    if list[i].eval(name) {
                        proof {
                            lemma_any_matches(rules_of(list@), name@);
                            assert(rules_of(list@)[i as int].matches(name@));
                        }
                        return true;
                    }
                    i += 1;
                }
                proof {
                    lemma_any_matches(rules_of(list@), name@);
                }
                false
            },
            NameCriteria::Equals(text) => {
                let owned = name.to_owned();
                *text == owned
            },
            NameCriteria::Contains(text) => str_contains(name, text.as_str()),
            NameCriteria::StartsWith(text) => str_starts_with(name, text.as_str()),
            NameCriteria::EndsWith(text) => str_ends_with(name, text.as_str()),
        }
    }
}

} // verus!
