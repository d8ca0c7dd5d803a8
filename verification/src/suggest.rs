//! Smart suggestions: an unknown command word is answered with the nearest
//! command name by Levenshtein edit distance ("Did you mean 'deploy'?").

use vstd::prelude::*;
use vstd::string::StringSliceAdditionalSpecFns;

verus! {

/// Farthest a command name may be from the typed word to be suggested.
pub const SUGGEST_MAX_DISTANCE: usize = 2;

/// Number of command names that can be suggested.
pub const COMMAND_COUNT: usize = 15;

/// The least of three integers.
pub open spec fn min3(x: int, y: int, z: int) -> int {
    if x <= y && x <= z {
        x
    } else if y <= z {
        y
    } else {
        z
    }
}

/// Levenshtein distance: the fewest single-byte insertions, deletions and
/// substitutions that turn `a` into `b`.
pub open spec fn edit_distance(a: Seq<u8>, b: Seq<u8>) -> int
    decreases a.len() + b.len(),
{
    if a.len() == 0 {
        b.len() as int
    } else if b.len() == 0 {
        a.len() as int
    } else {
        min3(
            edit_distance(a.drop_last(), b) + 1,
            edit_distance(a, b.drop_last()) + 1,
            edit_distance(a.drop_last(), b.drop_last()) + if a.last() == b.last() {
                0int
            } else {
                1int
            },
        )
    }
}

/// The distance is never negative and never more than the longer length.
pub proof fn lemma_edit_distance_bounds(a: Seq<u8>, b: Seq<u8>)
    ensures
        0 <= edit_distance(a, b),
        edit_distance(a, b) <= if a.len() >= b.len() {
            a.len() as int
        } else {
            b.len() as int
        },
    decreases a.len() + b.len(),
{
    if a.len() > 0 && b.len() > 0 {
        lemma_edit_distance_bounds(a.drop_last(), b);
        lemma_edit_distance_bounds(a, b.drop_last());
        lemma_edit_distance_bounds(a.drop_last(), b.drop_last());
    }
}

/// A word is at distance 0 from itself.
pub proof fn lemma_edit_distance_self(a: Seq<u8>)
    ensures
        edit_distance(a, a) == 0,
    decreases a.len(),
{
    if a.len() > 0 {
        lemma_edit_distance_self(a.drop_last());
        lemma_edit_distance_bounds(a.drop_last(), a);
        lemma_edit_distance_bounds(a, a.drop_last());
    }
}

/// The distance between `a` and `b` (Levenshtein), by dynamic programming
/// over the prefixes of `a`, one row per byte.
pub fn levenshtein(a: &[u8], b: &[u8]) -> (d: usize)
    requires
        b@.len() < usize::MAX,
    ensures
        d == edit_distance(a@, b@),
{
    let n = b.len();
    let mut prev: Vec<usize> = Vec::new();
    let mut j: usize = 0;
    while j < n
        invariant
            j <= n,
            n == b@.len(),
            prev@.len() == j,
            forall|k: int| 0 <= k < j ==> prev@[k] == k,
        decreases n - j,
    {
        prev.push(j);
        j += 1;
    }
    prev.push(n);
    proof {
        assert forall|k: int| 0 <= k <= n implies prev@[k] == edit_distance(a@.take(0), b@.take(k)) by {
            assert(a@.take(0).len() == 0);
        }
    }
    let mut i: usize = 0;
    while i < a.len()
        invariant
            i <= a@.len(),
            n == b@.len(),
            n < usize::MAX,
            prev@.len() == n + 1,
            forall|k: int| 0 <= k <= n ==> #[trigger] prev@[k] == edit_distance(a@.take(i as int), b@.take(k)),
        decreases a@.len() - i,
    {
        let ghost ai = a@.take(i as int);
        let ghost ai1 = a@.take(i + 1);
        proof {
            assert(ai1.drop_last() =~= ai);
            assert(ai1.last() == a@[i as int]);
        }
        let mut cur: Vec<usize> = Vec::new();
        cur.push(i + 1);
        proof {
            assert(b@.take(0).len() == 0);
        }
        let mut j: usize = 0;
        while j < n
            invariant
                i < a@.len(),
                n == b@.len(),
                n < usize::MAX,
                j <= n,
                prev@.len() == n + 1,
                cur@.len() == j + 1,
                ai == a@.take(i as int),
                ai1 == a@.take(i + 1),
                ai1.drop_last() == ai,
                ai1.last() == a@[i as int],
                forall|k: int| 0 <= k <= n ==> #[trigger] prev@[k] == edit_distance(ai, b@.take(k)),
                forall|k: int| 0 <= k <= j ==> #[trigger] cur@[k] == edit_distance(ai1, b@.take(k)),
            decreases n - j,
        {
            let ghost bj1 = b@.take(j + 1);
            proof {
                assert(bj1.drop_last() =~= b@.take(j as int));
                assert(bj1.last() == b@[j as int]);
                lemma_edit_distance_bounds(ai, bj1);
                lemma_edit_distance_bounds(ai1, b@.take(j as int));
                lemma_edit_distance_bounds(ai, b@.take(j as int));
                assert(prev@[j + 1] == edit_distance(ai, bj1));
                assert(prev@[j as int] == edit_distance(ai, b@.take(j as int)));
            }
            let up = prev[j + 1];
            let left = cur[j];
            let diag = prev[j];
            let step = if up <= left {
                up
            } else {
                left
            };
            let sub = if a[i] == b[j] {
                diag
            } else {
                diag + 1
            };
            let best = if step + 1 <= sub {
                step + 1
            } else {
                sub
            };
            proof {
                assert(edit_distance(ai1, bj1) == min3(
                    edit_distance(ai, bj1) + 1,
                    edit_distance(ai1, b@.take(j as int)) + 1,
                    edit_distance(ai, b@.take(j as int)) + if ai1.last() == bj1.last() {
                        0int
                    } else {
                        1int
                    },
                ));
            }
            cur.push(best);
            j += 1;
        }
        prev = cur;
        i += 1;
    }
    proof {
        assert(a@.take(a@.len() as int) =~= a@);
        assert(b@.take(n as int) =~= b@);
    }
    prev[n]
}

/// The command names that can be suggested, in the order `help` lists them.
pub open spec fn command_name(k: int) -> Seq<char> {
    if k == 0 {
        "status"@
    } else if k == 1 {
        "agents"@
    } else if k == 2 {
        "caps"@
    } else if k == 3 {
        "audit"@
    } else if k == 4 {
        "deploy"@
    } else if k == 5 {
        "pipe"@
    } else if k == 6 {
        "send"@
    } else if k == 7 {
        "ls"@
    } else if k == 8 {
        "cat"@
    } else if k == 9 {
        "write"@
    } else if k == 10 {
        "touch"@
    } else if k == 11 {
        "rm"@
    } else if k == 12 {
        "tick"@
    } else if k == 13 {
        "about"@
    } else {
        "help"@
    }
}

/// Command name number `k`.
pub fn command_name_at(k: usize) -> (s: &'static str)
    requires
        k < COMMAND_COUNT,
    ensures
        s@ == command_name(k as int),
        s@.len() <= 6,
        vstd::string::is_ascii(s),
{
    proof {
        reveal_strlit("status");
        reveal_strlit("agents");
        reveal_strlit("caps");
        reveal_strlit("audit");
        reveal_strlit("deploy");
        reveal_strlit("pipe");
        reveal_strlit("send");
        reveal_strlit("ls");
        reveal_strlit("cat");
        reveal_strlit("write");
        reveal_strlit("touch");
        reveal_strlit("rm");
        reveal_strlit("tick");
        reveal_strlit("about");
        reveal_strlit("help");
    }
    if k == 0 {
        "status"
    } else if k == 1 {
        "agents"
    } else if k == 2 {
        "caps"
    } else if k == 3 {
        "audit"
    } else if k == 4 {
        "deploy"
    } else if k == 5 {
        "pipe"
    } else if k == 6 {
        "send"
    } else if k == 7 {
        "ls"
    } else if k == 8 {
        "cat"
    } else if k == 9 {
        "write"
    } else if k == 10 {
        "touch"
    } else if k == 11 {
        "rm"
    } else if k == 12 {
        "tick"
    } else if k == 13 {
        "about"
    } else {
        "help"
    }
}

/// Distance from `word` (by its bytes) to command name number `k`.
pub open spec fn distance_to(word: Seq<u8>, k: int) -> int {
    edit_distance(word, command_name_bytes(k))
}

/// The bytes of command name number `k` (they are ASCII).
pub open spec fn command_name_bytes(k: int) -> Seq<u8> {
    Seq::new(command_name(k).len(), |i: int| command_name(k)[i] as u8)
}

/// The suggestion for `word`: the first command name at the least distance,
/// when that distance is at most `SUGGEST_MAX_DISTANCE`.
pub open spec fn is_suggestion(word: Seq<u8>, k: int) -> bool {
    &&& 0 <= k < COMMAND_COUNT
    &&& distance_to(word, k) <= SUGGEST_MAX_DISTANCE
    &&& forall|m: int| 0 <= m < k ==> distance_to(word, m) > distance_to(word, k)
    &&& forall|m: int| k < m < COMMAND_COUNT ==> distance_to(word, m) >= distance_to(word, k)
}

/// No command name is within `SUGGEST_MAX_DISTANCE` of `word`.
pub open spec fn nothing_close(word: Seq<u8>) -> bool {
    forall|m: int| 0 <= m < COMMAND_COUNT ==> distance_to(word, m) > SUGGEST_MAX_DISTANCE
}

/// `r` is what to suggest for `word`: a command name that `is_suggestion`
/// picks, or nothing when no name is close.
pub open spec fn suggestion_ok(word: Seq<u8>, r: Option<Seq<char>>) -> bool {
    match r {
        Some(s) => exists|k: int| is_suggestion(word, k) && s == command_name(k),
        None => nothing_close(word),
    }
}

/// The command name to suggest for an unknown word: the nearest by edit
/// distance (the first in `help` order among equals), if it is at most
/// `SUGGEST_MAX_DISTANCE` away.
pub fn suggest(word: &str) -> (r: Option<&'static str>)
    ensures
        suggestion_ok(
            word.spec_bytes(),
            match r {
                Some(s) => Some(s@),
                None => None,
            },
        ),
{
    let w = word.as_bytes();
    let mut best: usize = 0;
    let mut best_d: usize = usize::MAX;
    let mut k: usize = 0;
    while k < COMMAND_COUNT
        invariant
            k <= COMMAND_COUNT,
            w@ == word.spec_bytes(),
            k == 0 ==> best_d == usize::MAX,
            k > 0 ==> best < k && best_d == distance_to(w@, best as int),
            k > 0 ==> forall|m: int| 0 <= m < best ==> distance_to(w@, m) > best_d,
            k > 0 ==> forall|m: int| best < m < k ==> distance_to(w@, m) >= best_d,
        decreases COMMAND_COUNT - k,
    {
        let name = command_name_at(k);
        let nb = name.as_bytes();
        proof {
            vstd::string::is_ascii_spec_bytes(name);
            assert(nb@ =~= command_name_bytes(k as int));
        }
        let d = levenshtein(w, nb);
        if k == 0 || d < best_d {
            best = k;
            best_d = d;
        }
        k += 1;
    }
    if best_d <= SUGGEST_MAX_DISTANCE {
        let s = command_name_at(best);
        proof {
            assert(is_suggestion(w@, best as int));
        }
        Some(s)
    } else {
        None
    }
}

} // verus!
