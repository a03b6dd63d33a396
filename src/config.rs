//! The prefix registry: which team each branch prefix stands for, and the
//! resolution of a branch name into a team and an issue number.
use vstd::prelude::*;

use crate::branch::{
    all_digits, is_digit, is_upper, lemma_first_match_at, lemma_no_match,
    lemma_ticket_name_captures, match_at, matches_pattern, captured_digits, captured_prefix, digits_value, first_match, lemma_first_match_captures,
    match_branch_name, parse_issue_number,
};
use crate::error::{Error, ErrorView};

verus! {

/// The mapping from branch prefixes to team names. Each prefix has at most one
/// entry.
#[derive(Debug)]
pub struct Config {
    prefixes: Vec<(String, String)>,
}

/// A team name and an issue number, as resolved from a branch name.
#[derive(Debug)]
pub struct BranchInfo(pub String, pub u32);

/// The map that a list of pairs with distinct keys stands for.
pub open spec fn pairs_map(pairs: Seq<(String, String)>) -> Map<Seq<char>, Seq<char>> {
    Map::new(
        |k: Seq<char>| exists|i: int| 0 <= i < pairs.len() && (#[trigger] pairs[i]).0@ == k,
        |k: Seq<char>|
            pairs[choose|i: int| 0 <= i < pairs.len() && (#[trigger] pairs[i]).0@ == k].1@,
    )
}

/// Whether the keys of a list of pairs are pairwise distinct.
pub open spec fn distinct_keys(pairs: Seq<(String, String)>) -> bool {
    forall|i: int, j: int|
        0 <= i < pairs.len() && 0 <= j < pairs.len() && i != j ==> (#[trigger] pairs[i]).0@
            != (#[trigger] pairs[j]).0@
}

/// What resolving `name` against `registry` gives: the team name and issue
/// number, or the failure.
pub open spec fn resolve_spec(registry: Map<Seq<char>, Seq<char>>, name: Seq<char>) -> Result<
    (Seq<char>, nat),
    ErrorView,
> {
    match first_match(name) {
        None => Err(ErrorView::InvalidBranchName(name)),
        Some(i) => {
            let p = captured_prefix(name, i);
            let d = captured_digits(name, i);
            if !registry.contains_key(p) {
                Err(ErrorView::UnknownPrefix(p))
            } else if digits_value(d) > u32::MAX {
                Err(ErrorView::InvalidIssueNumber(d))
            } else {
                Ok((registry[p], digits_value(d)))
            }
        },
    }
}

/// A branch name made of a registered uppercase prefix, an optional hyphen, a
/// run of digits that fits 32 bits and a tail that does not begin with a digit
/// resolves to the prefix's team and the value of exactly those digits.
pub proof fn lemma_resolve_ticket_name(
    registry: Map<Seq<char>, Seq<char>>,
    upper: char,
    dash: bool,
    digits: Seq<char>,
    suffix: Seq<char>,
)
    requires
        is_upper(upper),
        digits.len() > 0,
        all_digits(digits),
        suffix.len() == 0 || !is_digit(suffix[0]),
        registry.contains_key(seq![upper]),
        digits_value(digits) <= u32::MAX,
    ensures
        resolve_spec(
            registry,
            seq![upper] + (if dash {
                seq!['-']
            } else {
                Seq::<char>::empty()
            }) + digits + suffix,
        ) == Ok::<(Seq<char>, nat), ErrorView>((registry[seq![upper]], digits_value(digits))),
{
    lemma_ticket_name_captures(upper, dash, digits, suffix);
}

/// A branch name in which the pattern matches nowhere is rejected as an
/// invalid branch name, whatever the registry holds.
pub proof fn lemma_resolve_unmatched(registry: Map<Seq<char>, Seq<char>>, name: Seq<char>)
    requires
        !matches_pattern(name),
    ensures
        resolve_spec(registry, name) == Err::<(Seq<char>, nat), ErrorView>(
            ErrorView::InvalidBranchName(name),
        ),
{
    lemma_no_match(name);
}

/// A branch name whose leftmost match begins with an unregistered prefix is
/// rejected with that prefix.
pub proof fn lemma_resolve_unknown_prefix(
    registry: Map<Seq<char>, Seq<char>>,
    name: Seq<char>,
    i: int,
)
    requires
        match_at(name, i),
        forall|k: int| 0 <= k < i ==> !match_at(name, k),
        !registry.contains_key(seq![name[i]]),
    ensures
        resolve_spec(registry, name) == Err::<(Seq<char>, nat), ErrorView>(
            ErrorView::UnknownPrefix(seq![name[i]]),
        ),
{
    lemma_first_match_at(name, i);
}

impl View for Config {
    type V = Map<Seq<char>, Seq<char>>;

    closed spec fn view(&self) -> Map<Seq<char>, Seq<char>> {
        pairs_map(self.prefixes@)
    }
}

impl Config {
    /// The invariant: no prefix has two entries.
    pub closed spec fn wf(&self) -> bool {
        distinct_keys(self.prefixes@)
    }

    /// A registry with no prefixes.
    pub fn new() -> (r: Config)
        ensures
            r.wf(),
            r@ == Map::<Seq<char>, Seq<char>>::empty(),
    {
        let r = Config { prefixes: Vec::new() };
        assert(r@ =~= Map::<Seq<char>, Seq<char>>::empty());
        r
    }

    /// The entries of the registry, one per prefix.
    pub fn prefixes(&self) -> (r: &Vec<(String, String)>)
        requires
            self.wf(),
        ensures
            distinct_keys(r@),
            pairs_map(r@) == self@,
    {
        &self.prefixes
    }

    /// The index of the entry for `prefix`, if there is one.
    fn position(&self, prefix: &String) -> (r: Option<usize>)
        requires
            self.wf(),
        ensures
            r matches Some(i) ==> i < self.prefixes@.len() && self.prefixes@[i as int].0@
                == prefix@,
            r is None ==> !self@.contains_key(prefix@),
    {
        let mut i: usize = 0;
        while i < self.prefixes.len()
            invariant
                i <= self.prefixes@.len(),
                forall|j: int| 0 <= j < i ==> (#[trigger] self.prefixes@[j]).0@ != prefix@,
            decreases self.prefixes@.len() - i,
        {
            if self.prefixes[i].0 == *prefix {
                return Some(i);
            }
            i = i + 1;
        }
        None
    }

    /// Registers `team_name` for `prefix`, replacing the team that the prefix
    /// had, if any.
    pub fn insert(&mut self, prefix: String, team_name: String)
        requires
            old(self).wf(),
        ensures
            final(self).wf(),
            final(self)@ == old(self)@.insert(prefix@, team_name@),
    {
        let ghost before = self.prefixes@;
        match self.position(&prefix) {
            Some(i) => {
                let ghost k = prefix@;
                let ghost v = team_name@;
                self.prefixes.set(i, (prefix, team_name));
                proof {
                    let after = self.prefixes@;
                    assert forall|a: int, b: int|
                        0 <= a < after.len() && 0 <= b < after.len() && a != b implies (#[trigger] after[a]).0@
                        != (#[trigger] after[b]).0@ by {
                        if a != i && b != i {
                            assert(after[a] == before[a] && after[b] == before[b]);
                        } else if a == i {
                            assert(after[b] == before[b]);
                        } else {
                            assert(after[a] == before[a]);
                        }
                    }
                    assert forall|key: Seq<char>| #[trigger] pairs_map(after).contains_key(key) <==> pairs_map(before).insert(k, v).contains_key(key) by {
                        if key == k {
                            assert(after[i as int].0@ == key);
                        } else if pairs_map(before).contains_key(key) {
                            let j = choose|j: int| 0 <= j < before.len() && (#[trigger] before[j]).0@ == key;
                            assert(after[j] == before[j]);
                        } else if pairs_map(after).contains_key(key) {
                            let j = choose|j: int| 0 <= j < after.len() && (#[trigger] after[j]).0@ == key;
                            assert(after[j] == before[j]);
                        }
                    }
                    assert forall|key: Seq<char>| #[trigger] pairs_map(after).contains_key(key) implies pairs_map(after)[key] == pairs_map(before).insert(k, v)[key] by {
                        let j = choose|j: int| 0 <= j < after.len() && (#[trigger] after[j]).0@ == key;
                        if key == k {
                            assert(j == i);
                        } else {
                            assert(after[j] == before[j]);
                            let j2 = choose|j2: int| 0 <= j2 < before.len() && (#[trigger] before[j2]).0@ == key;
                            assert(j2 == j);
                        }
                    }
                    assert(pairs_map(after) =~= pairs_map(before).insert(k, v));
                }
            },
            None => {
                let ghost k = prefix@;
                let ghost v = team_name@;
                self.prefixes.push((prefix, team_name));
                proof {
                    let after = self.prefixes@;
                    let n = before.len() as int;
                    assert(after[n].0@ == k);
                    assert forall|j: int| 0 <= j < n implies #[trigger] after[j] == before[j] by {}
                    assert forall|key: Seq<char>| #[trigger] pairs_map(after).contains_key(key) <==> pairs_map(before).insert(k, v).contains_key(key) by {
                        if pairs_map(before).contains_key(key) {
                            let j = choose|j: int| 0 <= j < before.len() && (#[trigger] before[j]).0@ == key;
                            assert(after[j] == before[j]);
                        }
                        if pairs_map(after).contains_key(key) && key != k {
                            let j = choose|j: int| 0 <= j < after.len() && (#[trigger] after[j]).0@ == key;
                            assert(after[j] == before[j]);
                        }
                    }
                    assert forall|key: Seq<char>| #[trigger] pairs_map(after).contains_key(key) implies pairs_map(after)[key] == pairs_map(before).insert(k, v)[key] by {
                        let j = choose|j: int| 0 <= j < after.len() && (#[trigger] after[j]).0@ == key;
                        if key == k {
                            assert(j == n);
                        } else {
                            assert(after[j] == before[j]);
                            let j2 = choose|j2: int| 0 <= j2 < before.len() && (#[trigger] before[j2]).0@ == key;
                            assert(j2 == j);
                        }
                    }
                    assert(pairs_map(after) =~= pairs_map(before).insert(k, v));
                }
            },
        }
    }

    /// The team registered for `prefix`, or `UnknownPrefix` naming the prefix.
    pub fn lookup(&self, prefix: &str) -> (r: Result<String, Error>)
        requires
            self.wf(),
        ensures
            self@.contains_key(prefix@) ==> (r matches Ok(t) && t@ == self@[prefix@]),
            !self@.contains_key(prefix@) ==> (r matches Err(e) && e@ == ErrorView::UnknownPrefix(
                prefix@,
            )),
    {
        let key = prefix.to_owned();
        match self.position(&key) {
            Some(i) => {
                proof {
                    let ps = self.prefixes@;
                    assert(ps[i as int].0@ == prefix@);
                    let j = choose|j: int| 0 <= j < ps.len() && (#[trigger] ps[j]).0@ == prefix@;
                    assert(j == i);
                }
                Ok(self.prefixes[i].1.clone())
            },
            None => Err(Error::UnknownPrefix(key)),
        }
    }

    /// Resolves a branch name into the team registered for its prefix and its
    /// issue number.
    pub fn extract_branch_info(&self, branch_name: &str) -> (r: Result<BranchInfo, Error>)
        requires
            self.wf(),
        ensures
            match r {
                Ok(info) => resolve_spec(self@, branch_name@) == Ok::<(Seq<char>, nat), ErrorView>((info.0@, info.1 as nat)),
                Err(e) => resolve_spec(self@, branch_name@) == Err::<(Seq<char>, nat), ErrorView>(e@),
            },
    {
        proof {
            lemma_first_match_captures(branch_name@);
        }
        let (prefix, digits) = match match_branch_name(branch_name) {
            Some(captures) => captures,
            None => return Err(Error::InvalidBranchName(branch_name.to_owned())),
        };
        let team_name = match self.lookup(prefix.as_str()) {
            Ok(t) => t,
            Err(e) => return Err(e),
        };
        match parse_issue_number(digits.as_str()) {
            Some(n) => Ok(BranchInfo(team_name, n)),
            None => Err(Error::InvalidIssueNumber(digits)),
        }
    }
}

} // verus!
