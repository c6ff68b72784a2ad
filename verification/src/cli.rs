use vstd::prelude::*;

verus! {

/// The port in the colon-prefixed form the listing collaborator takes.
pub open spec fn spec_normalize_port(t: Seq<char>) -> Seq<char> {
    if t.len() > 0 && t[0] == ':' {
        t
    } else {
        seq![':'] + t
    }
}

/// Canonicalizes the port argument: a token already starting with a colon
/// passes through unchanged, any other gets one prepended; the text is not
/// otherwise validated.
pub fn normalize_port(token: &str) -> (r: String)
    ensures
        r@ == spec_normalize_port(token@),
{
    let n = token.unicode_len();
    if n > 0 && token.get_char(0) == ':' {
        String::from_str(token)
    } else {
        let mut r = String::from_str(":");
        r.append(token);
        proof {
            reveal_strlit(":");
            assert(":"@ =~= seq![':']);
            assert(r@ =~= seq![':'] + token@);
        }
        r
    }
}

/// The command name a filter flag selects, if the token is a known flag.
pub open spec fn spec_flag_filter(a: Seq<char>) -> Option<Seq<char>> {
    if a == "-n"@ || a == "--node"@ {
        Some("node"@)
    } else if a == "-g"@ || a == "--google"@ {
        Some("Google"@)
    } else {
        None
    }
}

/// The filters the flag tokens select, in order; unknown tokens say nothing.
pub open spec fn spec_filters(flags: Seq<Seq<char>>) -> Seq<Seq<char>>
    decreases flags.len(),
{
    if flags.len() == 0 {
        Seq::empty()
    } else {
        match spec_flag_filter(flags.last()) {
            Some(f) => spec_filters(flags.drop_last()).push(f),
            None => spec_filters(flags.drop_last()),
        }
    }
}

/// What one invocation should do: print the usage banner and stop, or run
/// against a port with the given command-name filters.
pub enum Invocation {
    Usage,
    Run { port: String, filters: Vec<String> },
}

/// Reads the command line: without a port argument the usage banner is owed
/// and nothing runs; otherwise the run gets the canonicalized port and the
/// filters that the remaining flag tokens select.
pub fn parse_args(args: &Vec<String>) -> (inv: Invocation)
    ensures
        args@.len() < 2 ==> inv is Usage,
        args@.len() >= 2 ==> (inv matches Invocation::Run { port, filters } && port@
            == spec_normalize_port(args@[1]@) && filters@.map_values(|f: String| f@)
            == spec_filters(args@.map_values(|a: String| a@).skip(2))),
{
    if args.len() < 2 {
        return Invocation::Usage;
    }
    let port = normalize_port(args[1].as_str());
    let ghost flags = args@.map_values(|a: String| a@).skip(2);
    let mut filters: Vec<String> = Vec::new();
    let mut j: usize = 2;
    proof {
        assert(filters@.map_values(|f: String| f@) =~= Seq::<Seq<char>>::empty());
        assert(flags.take(0) =~= Seq::<Seq<char>>::empty());
    }
    while j < args.len()
        invariant
            2 <= j <= args@.len(),
            flags == args@.map_values(|a: String| a@).skip(2),
            filters@.map_values(|f: String| f@) == spec_filters(flags.take(j as int - 2)),
        decreases args@.len() - j,
    {
        proof {
            assert(flags.take(j as int - 1).drop_last() =~= flags.take(j as int - 2));
            assert(flags.take(j as int - 1).last() == args@[j as int]@);
        }
        let a = &args[j];
        if *a == String::from_str("-n") || *a == String::from_str("--node") {
            let ghost before = filters@.map_values(|f: String| f@);
            filters.push(String::from_str("node"));
            proof {
                assert(filters@.map_values(|f: String| f@) =~= before.push("node"@));
            }
        } else if *a == String::from_str("-g") || *a == String::from_str("--google") {
            let ghost before = filters@.map_values(|f: String| f@);
            filters.push(String::from_str("Google"));
            proof {
                assert(filters@.map_values(|f: String| f@) =~= before.push("Google"@));
            }
        }
        j = j + 1;
    }
    proof {
        assert(flags.take(args@.len() as int - 2) =~= flags);
    }
    Invocation::Run { port, filters }
}

} // verus!
