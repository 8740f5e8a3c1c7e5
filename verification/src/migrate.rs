//! Migration bookkeeping.
//!
//! Migrations are name-keyed and applied once: a `_migrations` table
//! records each applied name.  The schema statements themselves live with
//! the SQL shell; the core decides which names still have to run, and
//! proves that running everything pending and recording it leaves nothing
//! pending — applying all migrations twice yields the same recorded set
//! and, since only pending migrations execute, the same schema.

use vstd::prelude::*;
use crate::strutil::{clone_string, str_eq};

verus! {

/// Whether a name is among the recorded ones, compared by content.
pub open spec fn spec_recorded(applied: Seq<Seq<char>>, name: Seq<char>) -> bool {
    exists|i: int| 0 <= i < applied.len() && applied[i] == name
}

/// The names that still have to run: the schedule's names not yet
/// recorded, in schedule order.
pub open spec fn spec_pending(applied: Seq<Seq<char>>, all: Seq<Seq<char>>) -> Seq<Seq<char>> {
    all.filter(|n: Seq<char>| !spec_recorded(applied, n))
}

fn is_recorded(applied: &Vec<String>, name: &str) -> (r: bool)
    ensures
        r == spec_recorded(applied@.map_values(|s: String| s@), name@),
{
    let ghost av = applied@.map_values(|s: String| s@);
    let n = applied.len();
    let mut i: usize = 0;
    while i < n
        invariant
            n == applied@.len(),
            av == applied@.map_values(|s: String| s@),
            i <= n,
            forall|j: int| 0 <= j < i ==> av[j] != name@,
        decreases n - i,
    {
        proof {
            assert(av[i as int] == applied@[i as int]@);
        }
        if str_eq(applied[i].as_str(), name) {
            return true;
        }
        i = i + 1;
    }
    proof {
        if spec_recorded(av, name@) {
            let w = choose|w: int| 0 <= w < av.len() && av[w] == name@;
        }
    }
    false
}

/// The names that still have to run, given the recorded ones and the full
/// schedule.
pub fn pending_migrations(applied: &Vec<String>, all: &Vec<String>) -> (r: Vec<String>)
    ensures
        r@.map_values(|s: String| s@) == spec_pending(
            applied@.map_values(|s: String| s@),
            all@.map_values(|s: String| s@),
        ),
{
    let ghost av = applied@.map_values(|s: String| s@);
    let ghost lv = all@.map_values(|s: String| s@);
    let ghost pred = |n: Seq<char>| !spec_recorded(av, n);
    let n = all.len();
    let mut out: Vec<String> = Vec::new();
    proof {
        reveal(Seq::filter);
        assert(lv.subrange(0, 0) =~= Seq::<Seq<char>>::empty());
        assert(out@.map_values(|s: String| s@) =~= lv.subrange(0, 0).filter(pred));
    }
    let mut i: usize = 0;
    while i < n
        invariant
            n == all@.len(),
            n == lv.len(),
            av == applied@.map_values(|s: String| s@),
            lv == all@.map_values(|s: String| s@),
            i <= n,
            out@.map_values(|s: String| s@) == lv.subrange(0, i as int).filter(pred),
            pred == (|n0: Seq<char>| !spec_recorded(av, n0)),
        decreases n - i,
    {
        proof {
            assert(lv[i as int] == all@[i as int]@);
        }
        let ghost out_before = out@;
        if !is_recorded(applied, all[i].as_str()) {
            out.push(clone_string(&all[i]));
            proof {
                assert(out@.drop_last() =~= out_before);
            }
        }
        i = i + 1;
        proof {
            reveal(Seq::filter);
            assert(lv.subrange(0, i as int).drop_last() =~= lv.subrange(0, i - 1));
            assert(lv.subrange(0, i as int).last() == lv[i - 1]);
            assert(out@.map_values(|s: String| s@) =~= lv.subrange(0, i as int).filter(pred));
        }
    }
    proof {
        assert(lv.subrange(0, n as int) =~= lv);
    }
    out
}

/// Law: migrations are idempotent.  Once every pending name is recorded,
/// nothing is pending any more — a second full run executes no statement
/// and leaves the recorded set exactly as it was.
pub proof fn lemma_migrations_idempotent(applied: Seq<Seq<char>>, all: Seq<Seq<char>>)
    ensures
        spec_pending(applied + spec_pending(applied, all), all) =~= Seq::<Seq<char>>::empty(),
{
    let pend = spec_pending(applied, all);
    let once = applied + pend;
    assert forall|n: Seq<char>| spec_recorded(applied, n) implies #[trigger] spec_recorded(
        once,
        n,
    ) by {
        let w = choose|w: int| 0 <= w < applied.len() && applied[w] == n;
        assert(once[w] == n);
    }
    assert forall|n: Seq<char>| spec_recorded(pend, n) implies #[trigger] spec_recorded(
        once,
        n,
    ) by {
        let w = choose|w: int| 0 <= w < pend.len() && pend[w] == n;
        assert(once[applied.len() + w] == n);
    }
    lemma_no_match_filter_empty(applied, once, all);
}

proof fn lemma_no_match_filter_empty(applied: Seq<Seq<char>>, once: Seq<Seq<char>>, all: Seq<
    Seq<char>,
>)
    requires
        forall|n: Seq<char>| spec_recorded(applied, n) ==> #[trigger] spec_recorded(once, n),
        forall|n: Seq<char>|
            spec_recorded(spec_pending(applied, all), n) ==> #[trigger] spec_recorded(once, n),
    ensures
        spec_pending(once, all) =~= Seq::<Seq<char>>::empty(),
    decreases all.len(),
{
    reveal(Seq::filter);
    broadcast use vstd::seq_lib::group_filter_ensures;

    if all.len() > 0 {
        let front = all.drop_last();
        assert forall|n: Seq<char>|
            spec_recorded(spec_pending(applied, front), n) implies #[trigger] spec_recorded(
            once,
            n,
        ) by {
            let w = choose|w: int|
                0 <= w < spec_pending(applied, front).len() && spec_pending(applied, front)[w]
                    == n;
            front.lemma_filter_pred(|m: Seq<char>| !spec_recorded(applied, m), w);
            lemma_filter_element_from_names(
                front,
                |m: Seq<char>| !spec_recorded(applied, m),
                w,
            );
            let j = choose|j: int|
                0 <= j < front.len() && #[trigger] front[j] == spec_pending(applied, front)[w];
            assert(all[j] == front[j]);
            if !spec_recorded(applied, n) {
                all.lemma_filter_contains(|m: Seq<char>| !spec_recorded(applied, m), j);
                let k = choose|k: int|
                    0 <= k < spec_pending(applied, all).len() && spec_pending(applied, all)[k]
                        == n;
                assert(spec_recorded(spec_pending(applied, all), n));
            }
        }
        lemma_no_match_filter_empty(applied, once, front);
        let last = all.last();
        if !spec_recorded(once, last) {
            // the last name is in the schedule, so it is either recorded or
            // pending, and either way recorded after the run
            if !spec_recorded(applied, last) {
                all.lemma_filter_contains(
                    |m: Seq<char>| !spec_recorded(applied, m),
                    all.len() - 1,
                );
                let k = choose|k: int|
                    0 <= k < spec_pending(applied, all).len() && spec_pending(applied, all)[k]
                        == last;
                assert(spec_recorded(spec_pending(applied, all), last));
            }
            assert(false);
        }
        assert(spec_pending(once, all) =~= spec_pending(once, front));
    }
}

proof fn lemma_filter_element_from_names(
    s: Seq<Seq<char>>,
    pred: spec_fn(Seq<char>) -> bool,
    i: int,
)
    requires
        0 <= i < s.filter(pred).len(),
    ensures
        exists|j: int| 0 <= j < s.len() && #[trigger] s[j] == s.filter(pred)[i],
    decreases s.len(),
{
    reveal(Seq::filter);
    broadcast use vstd::seq_lib::group_filter_ensures;

    if s.len() > 0 {
        if pred(s.last()) && i == s.filter(pred).len() - 1 {
            assert(s[s.len() - 1] == s.filter(pred)[i]);
        } else {
            lemma_filter_element_from_names(s.drop_last(), pred, i);
            let j = choose|j: int|
                0 <= j < s.drop_last().len() && #[trigger] s.drop_last()[j] == s.drop_last().filter(
                    pred,
                )[i];
            assert(s[j] == s.drop_last()[j]);
        }
    }
}

} // verus!
