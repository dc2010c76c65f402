//! Removal of the tool's global flags, and the values they consume, from an
//! argument list, so that a subcommand sees only its own arguments.
use vstd::prelude::*;
use crate::table::{Segment, segments, views, flag_of, takes_value, lookup_flag, flag_takes_value};

verus! {

/// The tokens of the plain segments, in order.
pub open spec fn plain_tokens(s: Seq<Segment>) -> Seq<Seq<char>>
    decreases s.len(),
{
    if s.len() == 0 {
        Seq::empty()
    } else {
        let rest = plain_tokens(s.drop_last());
        match s.last() {
            Segment::Plain(t) => rest.push(t),
            Segment::Flag(_, _) => rest,
        }
    }
}

/// What stripping leaves of a token stream.
pub open spec fn stripped(t: Seq<Seq<char>>) -> Seq<Seq<char>> {
    plain_tokens(segments(t))
}

/// Cutting the tokens from `i` on: one segment, then the rest from `i + k`.
pub proof fn lemma_segments_step(t: Seq<Seq<char>>, i: int)
    requires
        0 <= i < t.len(),
    ensures
        ({
            let rest = t.subrange(i, t.len() as int);
            match flag_of(t[i]) {
                Some(f) => if takes_value(f) {
                    if i + 1 < t.len() {
                        segments(rest) == seq![Segment::Flag(f, Some(t[i + 1]))] + segments(
                            t.subrange(i + 2, t.len() as int),
                        )
                    } else {
                        segments(rest) == seq![Segment::Flag(f, None)]
                    }
                } else {
                    segments(rest) == seq![Segment::Flag(f, None)] + segments(
                        t.subrange(i + 1, t.len() as int),
                    )
                },
                None => segments(rest) == seq![Segment::Plain(t[i])] + segments(
                    t.subrange(i + 1, t.len() as int),
                ),
            }
        }),
{
    let rest = t.subrange(i, t.len() as int);
    assert(rest[0] == t[i]);
    if i + 1 < t.len() {
        assert(rest[1] == t[i + 1]);
        assert(rest.subrange(2, rest.len() as int) =~= t.subrange(i + 2, t.len() as int));
    }
    assert(rest.subrange(1, rest.len() as int) =~= t.subrange(i + 1, t.len() as int));
}

/// Drops every global flag, and the value a value-taking flag consumes,
/// keeping all other tokens in their order.
pub fn clean_args(args: &[String]) -> (r: Vec<String>)
    ensures
        views(r@) == stripped(views(args@)),
{
    let ghost t = views(args@);
    let ghost mut done: Seq<Segment> = Seq::empty();
    let mut result: Vec<String> = Vec::new();
    let mut i: usize = 0;
    proof {
        assert(t.subrange(0, t.len() as int) =~= t);
    }
    while i < args.len()
        invariant
            t == views(args@),
            i <= args@.len(),
            segments(t) == done + segments(t.subrange(i as int, t.len() as int)),
            views(result@) == plain_tokens(done),
        decreases args@.len() - i,
    {
        proof {
            lemma_segments_step(t, i as int);
        }
        let ghost prev = done;
        let tok = &args[i];
        match lookup_flag(tok.as_str()) {
            Some(f) => {
                if flag_takes_value(f) && i + 1 < args.len() {
                    proof {
                        done = done.push(Segment::Flag(f, Some(t[i + 1])));
                    }
                    i = i + 2;
                } else {
                    proof {
                        done = done.push(Segment::Flag(f, None));
                    }
                    if flag_takes_value(f) {
                        i = args.len();
                    } else {
                        i = i + 1;
                    }
                }
            },
            None => {
                result.push(tok.clone());
                proof {
                    done = done.push(Segment::Plain(t[i as int]));
                }
                i = i + 1;
            },
        }
        proof {
            assert(done.drop_last() =~= prev);
            assert(views(result@) =~= plain_tokens(done));
            if i == args.len() {
                assert(t.subrange(i as int, t.len() as int) =~= Seq::<Seq<char>>::empty());
            }
            assert(segments(t) =~= done + segments(t.subrange(i as int, t.len() as int)));
        }
    }
    proof {
        assert(t.subrange(i as int, t.len() as int) =~= Seq::<Seq<char>>::empty());
        assert(done + Seq::<Segment>::empty() =~= done);
    }
    result
}

} // verus!
