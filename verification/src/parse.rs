use vstd::prelude::*;

use crate::record::{ProcessInfo, ProcessModel, process_models};
use crate::text::{
    is_pid_token, pid_token_value, pid_value, spec_is_pid_token, spec_lines, spec_tokens,
    split_lines, tokenize,
};

verus! {

/// The record one listing line yields, if any: at least three
/// whitespace-separated tokens, the second of them a valid process
/// identifier; command name first, identifier second, owner third.
pub open spec fn spec_parse_line(line: Seq<char>) -> Option<ProcessModel> {
    if spec_tokens(line).len() < 3 {
        None
    } else if !spec_is_pid_token(spec_tokens(line)[1]) {
        None
    } else {
        Some(
            ProcessModel {
                pid: spec_tokens(line)[1],
                owner: spec_tokens(line)[2],
                command: spec_tokens(line)[0],
            },
        )
    }
}

/// The model of an optional record.
pub open spec fn opt_model(r: Option<ProcessInfo>) -> Option<ProcessModel> {
    match r {
        Some(p) => Some(p@),
        None => None,
    }
}

/// Parses one listing line into a record, or nothing when the line is
/// malformed: fewer than three tokens, or an identifier that is not numeric.
pub fn parse_lsof_line(line: &str) -> (r: Option<ProcessInfo>)
    ensures
        opt_model(r) == spec_parse_line(line@),
{
    let toks = tokenize(line);
    if toks.len() < 3 {
        return None;
    }
    if !is_pid_token(toks[1]) {
        return None;
    }
    let p = ProcessInfo {
        pid: String::from_str(toks[1]),
        owner: String::from_str(toks[2]),
        command: String::from_str(toks[0]),
    };
    proof {
        assert(p@ == spec_parse_line(line@).unwrap());
    }
    Some(p)
}

/// A line with fewer than three whitespace-separated tokens yields no
/// record: it is skipped, never an error.
pub proof fn lemma_short_line_no_record(line: Seq<char>)
    requires
        spec_tokens(line).len() < 3,
    ensures
        spec_parse_line(line) is None,
{
}

/// The records of a sequence of lines, in order, malformed lines skipped.
pub open spec fn spec_parse_lines(ls: Seq<Seq<char>>) -> Seq<ProcessModel>
    decreases ls.len(),
{
    if ls.len() == 0 {
        Seq::empty()
    } else {
        match spec_parse_line(ls.last()) {
            Some(m) => spec_parse_lines(ls.drop_last()).push(m),
            None => spec_parse_lines(ls.drop_last()),
        }
    }
}

/// Whether some record of `rs` names the same numeric identifier as the
/// token `pid`: the identifier is the uniqueness key, not its spelling.
pub open spec fn has_pid(rs: Seq<ProcessModel>, pid: Seq<char>) -> bool {
    exists|i: int| 0 <= i < rs.len() && pid_value(rs[i].pid) == pid_value(pid)
}

/// `rs` with every record dropped whose numeric identifier appeared
/// earlier; the first occurrence stays, in its place.
pub open spec fn spec_dedup(rs: Seq<ProcessModel>) -> Seq<ProcessModel>
    decreases rs.len(),
{
    if rs.len() == 0 {
        Seq::empty()
    } else if has_pid(spec_dedup(rs.drop_last()), rs.last().pid) {
        spec_dedup(rs.drop_last())
    } else {
        spec_dedup(rs.drop_last()).push(rs.last())
    }
}

/// After deduplication no two records name the same numeric identifier.
pub proof fn lemma_dedup_distinct(rs: Seq<ProcessModel>)
    ensures
        forall|i: int, j: int|
            0 <= i < j < spec_dedup(rs).len() ==> pid_value(spec_dedup(rs)[i].pid) != pid_value(
                spec_dedup(rs)[j].pid,
            ),
    decreases rs.len(),
{
    if rs.len() > 0 {
        lemma_dedup_distinct(rs.drop_last());
        let rest = spec_dedup(rs.drop_last());
        let whole = spec_dedup(rs);
        if !has_pid(rest, rs.last().pid) {
            assert forall|i: int, j: int| 0 <= i < j < whole.len() implies pid_value(whole[i].pid)
                != pid_value(whole[j].pid) by {
                if j == whole.len() - 1 {
                    assert(whole[i] == rest[i]);
                    assert(whole[j] == rs.last());
                } else {
                    assert(whole[i] == rest[i]);
                    assert(whole[j] == rest[j]);
                }
            }
        }
    }
}

/// Records of a whole listing: the header line dropped, each remaining line
/// parsed with failures skipped, and later duplicates of an identifier
/// dropped.
pub open spec fn spec_parse_listing(text: Seq<char>) -> Seq<ProcessModel> {
    spec_dedup(spec_parse_lines(spec_lines(text).skip(1)))
}

/// The listing parser is a pure function of its text: equal inputs parse to
/// equal record sequences, however often it is run.
pub proof fn lemma_parse_listing_pure(a: Seq<char>, b: Seq<char>)
    requires
        a == b,
    ensures
        spec_parse_listing(a) == spec_parse_listing(b),
{
}

/// Every record a line yields carries a valid identifier token.
pub proof fn lemma_parsed_pid_valid(line: Seq<char>)
    ensures
        (spec_parse_line(line) matches Some(m) ==> spec_is_pid_token(m.pid)),
{
}

/// Whether some record of `v` names the same numeric identifier as `pid`.
fn vec_has_pid(v: &Vec<ProcessInfo>, pid: &String) -> (b: bool)
    requires
        spec_is_pid_token(pid@),
        forall|m: int| 0 <= m < v@.len() ==> spec_is_pid_token(#[trigger] v@[m]@.pid),
    ensures
        b == has_pid(process_models(v@), pid@),
{
    let target = pid_token_value(pid.as_str());
    let mut i: usize = 0;
    while i < v.len()
        invariant
            i <= v@.len(),
            target as int == pid_value(pid@),
            forall|m: int| 0 <= m < v@.len() ==> spec_is_pid_token(#[trigger] v@[m]@.pid),
            forall|m: int| 0 <= m < i ==> pid_value(process_models(v@)[m].pid) != pid_value(pid@),
        decreases v@.len() - i,
    {
        proof {
            assert(spec_is_pid_token(v@[i as int]@.pid));
        }
        let cand = pid_token_value(v[i].pid.as_str());
        if cand == target {
            proof {
                assert(pid_value(process_models(v@)[i as int].pid) == pid_value(pid@));
            }
            return true;
        }
        i = i + 1;
    }
    false
}

/// Parses the full listing text: skips the header line, parses every later
/// line, drops malformed ones, and keeps the first record of each numeric
/// identifier.  No two records that come out name the same identifier.
pub fn parse_listing(text: &str) -> (r: Vec<ProcessInfo>)
    ensures
        process_models(r@) == spec_parse_listing(text@),
        forall|i: int, j: int|
            0 <= i < j < r@.len() ==> pid_value(r@[i]@.pid) != pid_value(r@[j]@.pid),
{
    let lines = split_lines(text);
    let ghost lm = lines@.map_values(|l: &str| l@);
    let ghost body = lm.skip(1);
    let mut raw: Vec<ProcessInfo> = Vec::new();
    let mut k: usize = 1;
    proof {
        assert(process_models(raw@) =~= Seq::<ProcessModel>::empty());
        assert(body.take(0) =~= Seq::<Seq<char>>::empty());
    }
    while k < lines.len()
        invariant
            1 <= k <= lines@.len(),
            lines@.map_values(|l: &str| l@) == lm,
            body == lm.skip(1),
            process_models(raw@) == spec_parse_lines(body.take(k as int - 1)),
            forall|m: int| 0 <= m < raw@.len() ==> spec_is_pid_token(#[trigger] raw@[m]@.pid),
        decreases lines@.len() - k,
    {
        proof {
            assert(body.take(k as int).drop_last() =~= body.take(k as int - 1));
            assert(body.take(k as int).last() == lm[k as int]);
            assert(lm[k as int] == lines@[k as int]@);
        }
        let rec = parse_lsof_line(lines[k]);
        match rec {
            Some(p) => {
                let ghost before = process_models(raw@);
                proof {
                    lemma_parsed_pid_valid(lines@[k as int]@);
                }
                raw.push(p);
                proof {
                    assert(process_models(raw@) =~= before.push(p@));
                }
            },
            None => {},
        }
        k = k + 1;
    }
    proof {
        assert(body.take(lines@.len() as int - 1) =~= body);
    }
    let mut out: Vec<ProcessInfo> = Vec::new();
    let ghost rm = process_models(raw@);
    let mut i: usize = 0;
    proof {
        assert(process_models(out@) =~= Seq::<ProcessModel>::empty());
        assert(rm.take(0) =~= Seq::<ProcessModel>::empty());
    }
    while i < raw.len()
        invariant
            i <= raw@.len(),
            rm == process_models(raw@),
            process_models(out@) == spec_dedup(rm.take(i as int)),
            forall|m: int| 0 <= m < raw@.len() ==> spec_is_pid_token(#[trigger] raw@[m]@.pid),
            forall|m: int| 0 <= m < out@.len() ==> spec_is_pid_token(#[trigger] out@[m]@.pid),
        decreases raw@.len() - i,
    {
        proof {
            assert(rm.take(i as int + 1).drop_last() =~= rm.take(i as int));
            assert(rm.take(i as int + 1).last() == raw@[i as int]@);
            assert(spec_is_pid_token(raw@[i as int]@.pid));
        }
        let dup = vec_has_pid(&out, &raw[i].pid);
        if !dup {
            let p = raw[i].duplicate();
            let ghost before = process_models(out@);
            out.push(p);
            proof {
                assert(process_models(out@) =~= before.push(raw@[i as int]@));
            }
        }
        i = i + 1;
    }
    proof {
        assert(rm.take(raw@.len() as int) =~= rm);
        lemma_dedup_distinct(rm);
        assert forall|a: int, b: int| 0 <= a < b < out@.len() implies pid_value(out@[a]@.pid)
            != pid_value(out@[b]@.pid) by {
            assert(process_models(out@)[a] == out@[a]@);
            assert(process_models(out@)[b] == out@[b]@);
        }
    }
    out
}

} // verus!
