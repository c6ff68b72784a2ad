use vstd::prelude::*;

use crate::record::{ProcessInfo, ProcessModel, process_models};
use crate::text::{spec_trim, trim_str};

verus! {

/// The sentinel identity used when the user lookup fails or says nothing.
pub open spec fn unknown_identity() -> Seq<char> {
    seq!['u', 'n', 'k', 'n', 'o', 'w', 'n']
}

/// The view of an optional borrowed string.
pub open spec fn opt_str_view(raw: Option<&str>) -> Option<Seq<char>> {
    match raw {
        Some(s) => Some(s@),
        None => None,
    }
}

/// The invoking user's identity: the looked-up name trimmed, or the
/// sentinel when the lookup failed or produced only whitespace.
pub open spec fn spec_identity(raw: Option<Seq<char>>) -> Seq<char> {
    match raw {
        None => unknown_identity(),
        Some(s) => if spec_trim(s).len() == 0 {
            unknown_identity()
        } else {
            spec_trim(s)
        },
    }
}

fn unknown_string() -> (r: String)
    ensures
        r@ == unknown_identity(),
{
    proof {
        reveal_strlit("unknown");
        assert("unknown"@ =~= unknown_identity());
    }
    String::from_str("unknown")
}

/// Turns the raw user-lookup output into the identity the classifier uses;
/// a failed lookup (`None`) or a blank answer yields the sentinel, never an
/// abort.
pub fn resolve_identity(raw: Option<&str>) -> (r: String)
    ensures
        r@ == spec_identity(opt_str_view(raw)),
{
    match raw {
        None => unknown_string(),
        Some(s) => {
            let t = trim_str(s);
            if t.unicode_len() == 0 {
                unknown_string()
            } else {
                String::from_str(t)
            }
        },
    }
}

/// Whether `c` is `l` itself or its upper-case ASCII counterpart; `l` is a
/// lower-case ASCII letter.
pub open spec fn matches_ci(c: char, l: char) -> bool {
    (c as u32) == (l as u32) || (c as u32) + 32 == (l as u32)
}

fn char_matches_ci(c: char, l: char) -> (b: bool)
    ensures
        b == matches_ci(c, l),
{
    let cv = c as u32;
    let lv = l as u32;
    cv == lv || cv + 32 == lv
}

/// The two affirmative words: "y" and "yes", case-insensitively.
pub open spec fn spec_affirmative_word(t: Seq<char>) -> bool {
    ||| (t.len() == 1 && matches_ci(t[0], 'y'))
    ||| (t.len() == 3 && matches_ci(t[0], 'y') && matches_ci(t[1], 'e') && matches_ci(t[2], 's'))
}

/// Only the exact words "y" and "yes" (case-insensitive, after trimming)
/// confirm; every other input, the empty one included, declines.
pub open spec fn spec_is_affirmative(s: Seq<char>) -> bool {
    spec_affirmative_word(spec_trim(s))
}

/// Decides whether an interactive answer confirms the elevated step.
pub fn is_affirmative(input: &str) -> (b: bool)
    ensures
        b == spec_is_affirmative(input@),
{
    let t = trim_str(input);
    let n = t.unicode_len();
    if n == 1 {
        char_matches_ci(t.get_char(0), 'y')
    } else if n == 3 {
        let b0 = char_matches_ci(t.get_char(0), 'y');
        let b1 = char_matches_ci(t.get_char(1), 'e');
        let b2 = char_matches_ci(t.get_char(2), 's');
        b0 && b1 && b2
    } else {
        false
    }
}

/// A record matches when no filter was supplied, or when its command name
/// equals at least one filter.
pub open spec fn spec_matches(filters: Seq<Seq<char>>, m: ProcessModel) -> bool {
    filters.len() == 0 || exists|i: int| 0 <= i < filters.len() && filters[i] == m.command
}

/// Evaluates the filter set against one record.
pub fn record_matches(filters: &Vec<String>, rec: &ProcessInfo) -> (b: bool)
    ensures
        b == spec_matches(filters@.map_values(|f: String| f@), rec@),
{
    let ghost fm = filters@.map_values(|f: String| f@);
    if filters.len() == 0 {
        return true;
    }
    let mut i: usize = 0;
    while i < filters.len()
        invariant
            i <= filters@.len(),
            fm == filters@.map_values(|f: String| f@),
            forall|m: int| 0 <= m < i ==> fm[m] != rec@.command,
        decreases filters@.len() - i,
    {
        if filters[i] == rec.command {
            proof {
                assert(fm[i as int] == rec@.command);
            }
            return true;
        }
        i = i + 1;
    }
    false
}

/// The records of `rs` that the filter set accepts, in order.
pub open spec fn spec_filter(filters: Seq<Seq<char>>, rs: Seq<ProcessModel>) -> Seq<ProcessModel>
    decreases rs.len(),
{
    if rs.len() == 0 {
        Seq::empty()
    } else if spec_matches(filters, rs.last()) {
        spec_filter(filters, rs.drop_last()).push(rs.last())
    } else {
        spec_filter(filters, rs.drop_last())
    }
}

/// Keeps the records that the filter set accepts.
pub fn filter_records(filters: &Vec<String>, records: Vec<ProcessInfo>) -> (r: Vec<ProcessInfo>)
    ensures
        process_models(r@) == spec_filter(
            filters@.map_values(|f: String| f@),
            process_models(records@),
        ),
{
    let ghost fm = filters@.map_values(|f: String| f@);
    let ghost rm = process_models(records@);
    let mut out: Vec<ProcessInfo> = Vec::new();
    let mut i: usize = 0;
    proof {
        assert(process_models(out@) =~= Seq::<ProcessModel>::empty());
        assert(rm.take(0) =~= Seq::<ProcessModel>::empty());
    }
    while i < records.len()
        invariant
            i <= records@.len(),
            fm == filters@.map_values(|f: String| f@),
            rm == process_models(records@),
            process_models(out@) == spec_filter(fm, rm.take(i as int)),
        decreases records@.len() - i,
    {
        proof {
            assert(rm.take(i as int + 1).drop_last() =~= rm.take(i as int));
            assert(rm.take(i as int + 1).last() == records@[i as int]@);
        }
        if record_matches(filters, &records[i]) {
            let p = records[i].duplicate();
            let ghost before = process_models(out@);
            out.push(p);
            proof {
                assert(process_models(out@) =~= before.push(records@[i as int]@));
            }
        }
        i = i + 1;
    }
    proof {
        assert(rm.take(records@.len() as int) =~= rm);
    }
    out
}

/// The records of `rs` owned by `user`, in order.
pub open spec fn spec_owned(rs: Seq<ProcessModel>, user: Seq<char>) -> Seq<ProcessModel>
    decreases rs.len(),
{
    if rs.len() == 0 {
        Seq::empty()
    } else if rs.last().owner == user {
        spec_owned(rs.drop_last(), user).push(rs.last())
    } else {
        spec_owned(rs.drop_last(), user)
    }
}

/// The records of `rs` owned by anyone else, in order.
pub open spec fn spec_foreign(rs: Seq<ProcessModel>, user: Seq<char>) -> Seq<ProcessModel>
    decreases rs.len(),
{
    if rs.len() == 0 {
        Seq::empty()
    } else if rs.last().owner != user {
        spec_foreign(rs.drop_last(), user).push(rs.last())
    } else {
        spec_foreign(rs.drop_last(), user)
    }
}

/// The ownership partition is total and exclusive: the two parts exhaust the
/// records, a record lands in the part its owner field selects, and each
/// part holds only records of the input with the corresponding owner.
pub proof fn lemma_partition_total(rs: Seq<ProcessModel>, user: Seq<char>)
    ensures
        spec_owned(rs, user).len() + spec_foreign(rs, user).len() == rs.len(),
        forall|i: int|
            0 <= i < spec_owned(rs, user).len() ==> #[trigger] spec_owned(rs, user)[i].owner
                == user && rs.contains(spec_owned(rs, user)[i]),
        forall|i: int|
            0 <= i < spec_foreign(rs, user).len() ==> #[trigger] spec_foreign(rs, user)[i].owner
                != user && rs.contains(spec_foreign(rs, user)[i]),
        forall|i: int|
            0 <= i < rs.len() ==> (if rs[i].owner == user {
                spec_owned(rs, user).contains(#[trigger] rs[i])
            } else {
                spec_foreign(rs, user).contains(rs[i])
            }),
    decreases rs.len(),
{
    broadcast use vstd::seq_lib::lemma_seq_contains_after_push;

    if rs.len() > 0 {
        lemma_partition_total(rs.drop_last(), user);
        let prev = rs.drop_last();
        assert forall|i: int| 0 <= i < prev.len() implies rs.contains(prev[i]) by {
            assert(rs[i] == prev[i]);
        }
        assert(rs.contains(rs.last())) by {
            assert(rs[rs.len() - 1] == rs.last());
        }
        assert forall|i: int| 0 <= i < rs.len() implies (if rs[i].owner == user {
            spec_owned(rs, user).contains(#[trigger] rs[i])
        } else {
            spec_foreign(rs, user).contains(rs[i])
        }) by {
            if i < rs.len() - 1 {
                assert(rs[i] == prev[i]);
                assert(prev.contains(prev[i]));
            }
        }
    }
}

/// Splits records into those owned by `current_user` and those owned by
/// anyone else, each side keeping its order.
pub fn partition_by_owner(records: Vec<ProcessInfo>, current_user: &String) -> (r: (
    Vec<ProcessInfo>,
    Vec<ProcessInfo>,
))
    ensures
        process_models(r.0@) == spec_owned(process_models(records@), current_user@),
        process_models(r.1@) == spec_foreign(process_models(records@), current_user@),
{
    let ghost rm = process_models(records@);
    let ghost user = current_user@;
    let mut owned_part: Vec<ProcessInfo> = Vec::new();
    let mut foreign_part: Vec<ProcessInfo> = Vec::new();
    let mut i: usize = 0;
    proof {
        assert(process_models(owned_part@) =~= Seq::<ProcessModel>::empty());
        assert(process_models(foreign_part@) =~= Seq::<ProcessModel>::empty());
        assert(rm.take(0) =~= Seq::<ProcessModel>::empty());
    }
    while i < records.len()
        invariant
            i <= records@.len(),
            rm == process_models(records@),
            user == current_user@,
            process_models(owned_part@) == spec_owned(rm.take(i as int), user),
            process_models(foreign_part@) == spec_foreign(rm.take(i as int), user),
        decreases records@.len() - i,
    {
        proof {
            assert(rm.take(i as int + 1).drop_last() =~= rm.take(i as int));
            assert(rm.take(i as int + 1).last() == records@[i as int]@);
        }
        let p = records[i].duplicate();
        if p.owner == *current_user {
            let ghost before = process_models(owned_part@);
            owned_part.push(p);
            proof {
                assert(process_models(owned_part@) =~= before.push(records@[i as int]@));
            }
        } else {
            let ghost before = process_models(foreign_part@);
            foreign_part.push(p);
            proof {
                assert(process_models(foreign_part@) =~= before.push(records@[i as int]@));
            }
        }
        i = i + 1;
    }
    proof {
        assert(rm.take(records@.len() as int) =~= rm);
    }
    (owned_part, foreign_part)
}

} // verus!
