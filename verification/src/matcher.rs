//! Longest-prefix matching of a request path against the routing table.
//!
//! A prefix matches a path when the path starts with it, character for
//! character. Among the matching prefixes of a table the longest wins. Two
//! matching prefixes of one length are the same prefix, so the winner is the
//! only one of its length and no further tie-break is needed.

use vstd::prelude::*;
use vstd::string::*;
use crate::table::entries_of;
use crate::table::has_prefix;
use crate::table::lemma_entry_in_table;
use crate::table::RoutingTable;
use crate::text::prefix_len;

verus! {

/// Whether `k` is a prefix of the table that `path` starts with.
pub open spec fn is_match(table: Map<Seq<char>, Seq<char>>, path: Seq<char>, k: Seq<char>) -> bool {
    table.contains_key(k) && k.is_prefix_of(path)
}

/// The greatest length up to `n` at which the head of `path` is a prefix of the table.
pub open spec fn longest_match_len(
    table: Map<Seq<char>, Seq<char>>,
    path: Seq<char>,
    n: nat,
) -> Option<nat>
    decreases n,
{
    if n <= path.len() && table.contains_key(path.take(n as int)) {
        Some(n)
    } else if n == 0 {
        None
    } else {
        longest_match_len(table, path, (n - 1) as nat)
    }
}

/// The prefix that wins for `path`: the longest head of `path` that the table holds.
pub open spec fn winning_prefix(table: Map<Seq<char>, Seq<char>>, path: Seq<char>) -> Option<
    Seq<char>,
> {
    match longest_match_len(table, path, path.len()) {
        Some(n) => Some(path.take(n as int)),
        None => None,
    }
}

/// The address that a matched path is rewritten to: the target, then what
/// follows the prefix in the path.
pub open spec fn rewritten(target: Seq<char>, path: Seq<char>, prefix: Seq<char>) -> Seq<char> {
    target + path.skip(prefix.len() as int)
}

/// The outcome of matching, over character sequences.
pub enum MatchView {
    Matched { target: Seq<char>, rewritten_path: Seq<char> },
    NoMatch,
}

/// What matching `path` against `table` gives.
pub open spec fn resolve(table: Map<Seq<char>, Seq<char>>, path: Seq<char>) -> MatchView {
    match winning_prefix(table, path) {
        Some(k) => MatchView::Matched {
            target: table[k],
            rewritten_path: rewritten(table[k], path, k),
        },
        None => MatchView::NoMatch,
    }
}

/// The outcome of matching a request path against the table.
#[derive(Debug, Clone, PartialEq, Eq)]
pub enum MatchResult {
    /// A rule applies.
    Matched {
        /// The upstream base URL of the winning rule.
        target: String,
        /// The target followed by the path's remainder after the prefix.
        rewritten_path: String,
    },
    /// No rule applies.
    NoMatch,
}

impl View for MatchResult {
    type V = MatchView;

    open spec fn view(&self) -> MatchView {
        match self {
            MatchResult::Matched { target, rewritten_path } => MatchView::Matched {
                target: target@,
                rewritten_path: rewritten_path@,
            },
            MatchResult::NoMatch => MatchView::NoMatch,
        }
    }
}

/// What the search from length `n` downwards finds: the greatest length up
/// to `n` at which the head of `path` is in the table, or nothing where no
/// head of `path` up to `n` is in the table.
proof fn lemma_search_result(table: Map<Seq<char>, Seq<char>>, path: Seq<char>, n: nat)
    requires
        n <= path.len(),
    ensures
        match longest_match_len(table, path, n) {
            Some(m) => {
                &&& m <= n
                &&& table.contains_key(path.take(m as int))
                &&& forall|j: int| m < j <= n ==> !table.contains_key(#[trigger] path.take(j))
            },
            None => forall|j: int| 0 <= j <= n ==> !table.contains_key(#[trigger] path.take(j)),
        },
    decreases n,
{
    if table.contains_key(path.take(n as int)) {
    } else if n == 0 {
    } else {
        lemma_search_result(table, path, (n - 1) as nat);
    }
}

/// A prefix of `path` is the head of `path` of its own length.
pub proof fn lemma_prefix_is_head(path: Seq<char>, k: Seq<char>)
    requires
        k.is_prefix_of(path),
    ensures
        k.len() <= path.len(),
        path.take(k.len() as int) == k,
{
    assert(path.take(k.len() as int) =~= k);
}

/// The winner matches: the table holds it and the path starts with it.
pub proof fn lemma_winner_matches(table: Map<Seq<char>, Seq<char>>, path: Seq<char>)
    ensures
        match winning_prefix(table, path) {
            Some(k) => is_match(table, path, k),
            None => true,
        },
{
    lemma_search_result(table, path, path.len());
    match winning_prefix(table, path) {
        Some(k) => {
            assert(k.is_prefix_of(path));
        },
        None => {},
    }
}

/// Whenever some prefix of the table matches, there is a winner, and no
/// matching prefix is longer than the winner.
pub proof fn lemma_winner_is_longest(
    table: Map<Seq<char>, Seq<char>>,
    path: Seq<char>,
    k: Seq<char>,
)
    requires
        is_match(table, path, k),
    ensures
        winning_prefix(table, path) is Some,
        k.len() <= winning_prefix(table, path)->Some_0.len(),
{
    lemma_search_result(table, path, path.len());
    lemma_prefix_is_head(path, k);
    assert(table.contains_key(path.take(k.len() as int)));
}

/// There is a winner exactly when some prefix of the table matches.
pub proof fn lemma_winner_iff_some_match(table: Map<Seq<char>, Seq<char>>, path: Seq<char>)
    ensures
        winning_prefix(table, path) is Some <==> exists|k: Seq<char>| is_match(table, path, k),
{
    lemma_winner_matches(table, path);
    if exists|k: Seq<char>| is_match(table, path, k) {
        let k = choose|k: Seq<char>| is_match(table, path, k);
        lemma_winner_is_longest(table, path, k);
    }
}

/// Two prefixes of one path that have the same length are the same prefix:
/// among the matching prefixes no two tie in length.
pub proof fn lemma_no_ties(path: Seq<char>, a: Seq<char>, b: Seq<char>)
    requires
        a.is_prefix_of(path),
        b.is_prefix_of(path),
        a.len() == b.len(),
    ensures
        a == b,
{
    lemma_prefix_is_head(path, a);
    lemma_prefix_is_head(path, b);
}

/// The selection rule picks one prefix and only one: a matching prefix that
/// no matching prefix exceeds in length is the winner.
pub proof fn lemma_winner_unique(table: Map<Seq<char>, Seq<char>>, path: Seq<char>, k: Seq<char>)
    requires
        is_match(table, path, k),
        forall|j: Seq<char>| is_match(table, path, j) ==> j.len() <= k.len(),
    ensures
        winning_prefix(table, path) == Some(k),
{
    lemma_winner_matches(table, path);
    lemma_winner_is_longest(table, path, k);
    let w = winning_prefix(table, path)->Some_0;
    assert(is_match(table, path, w));
    lemma_no_ties(path, w, k);
}

/// Matching depends on the path and on the table's contents alone: two
/// outcomes for the same path and the same contents are the same outcome.
pub proof fn lemma_matching_is_a_function(
    table: Map<Seq<char>, Seq<char>>,
    path: Seq<char>,
    first: MatchView,
    second: MatchView,
)
    requires
        first == resolve(table, path),
        second == resolve(table, path),
    ensures
        first == second,
{
}

/// A matched path is rewritten to the winner's target followed by what the
/// path holds after the winner; read together, prefix and remainder are the path.
pub proof fn lemma_rewritten_path(table: Map<Seq<char>, Seq<char>>, path: Seq<char>)
    ensures
        match winning_prefix(table, path) {
            Some(k) => {
                &&& resolve(table, path) == MatchView::Matched {
                    target: table[k],
                    rewritten_path: table[k] + path.skip(k.len() as int),
                }
                &&& k + path.skip(k.len() as int) == path
            },
            None => resolve(table, path) == MatchView::NoMatch,
        },
{
    lemma_winner_matches(table, path);
    match winning_prefix(table, path) {
        Some(k) => {
            lemma_prefix_is_head(path, k);
            assert(k + path.skip(k.len() as int) =~= path);
        },
        None => {},
    }
}

/// Matches `path` against the table: the longest prefix that the path starts
/// with wins, and the path is rewritten to that rule's target followed by the
/// path's remainder.
pub fn match_route(path: &str, table: &RoutingTable) -> (r: MatchResult)
    ensures
        r@ == resolve(table@, path@),
{
    let routes = table.routes();
    let ghost entries = table.entries();
    let mut best: Option<usize> = None;
    let mut best_len: usize = 0;
    let mut i: usize = 0;
    while i < routes.len()
        invariant
            i <= routes@.len(),
            entries == entries_of(routes@),
            match best {
                Some(b) => {
                    &&& b < i
                    &&& entries[b as int].0.is_prefix_of(path@)
                    &&& best_len == entries[b as int].0.len()
                },
                None => true,
            },
            forall|j: int|
                0 <= j < i && (#[trigger] entries[j]).0.is_prefix_of(path@) ==> best is Some
                    && entries[j].0.len() <= best_len,
        decreases routes@.len() - i,
    {
        match prefix_len(path, routes[i].prefix.as_str()) {
            Some(n) => {
                if best.is_none() || n > best_len {
                    best = Some(i);
                    best_len = n;
                }
            },
            None => {},
        }
        i += 1;
    }
    match best {
        None => {
            proof {
                lemma_winner_matches(table@, path@);
                if winning_prefix(table@, path@) is Some {
                    let k = winning_prefix(table@, path@)->Some_0;
                    assert(has_prefix(entries, k));
                }
            }
            MatchResult::NoMatch
        },
        Some(b) => {
            let route = &routes[b];
            proof {
                let k = entries[b as int].0;
                lemma_entry_in_table(entries, b as int);
                assert forall|j: Seq<char>| is_match(table@, path@, j) implies j.len() <= k.len() by {
                    assert(has_prefix(entries, j));
                }
                lemma_winner_unique(table@, path@, k);
            }
            let rest = path.substring_char(best_len, path.unicode_len());
            let target = route.target.clone();
            let rewritten_path = route.target.clone().concat(rest);
            MatchResult::Matched { target, rewritten_path }
        },
    }
}

} // verus!
