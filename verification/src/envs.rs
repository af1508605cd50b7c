//! Building the environment a command runs with.
//!
//! The state machine injects `INPUT_<key>`, `STATE_<key>`,
//! `PREVIOUS_<key>`, `ID` and `VERSION` variables; a command block may add
//! its own.  Only known values become variables; the declaration order of
//! each mapping is preserved.

use vstd::prelude::*;
use vstd::string::StringExecFns;

use crate::dict::Dict;
use crate::state::StrDictV;
use crate::value::Value;

verus! {

/// The views of a list of environment pairs.
pub open spec fn pair_views(v: Seq<(String, String)>) -> Seq<(Seq<char>, Seq<char>)> {
    v.map_values(|e: (String, String)| (e.0@, e.1@))
}

/// The environment pairs of one known mapping, each key prefixed:
/// one pair per known value, in declaration order.
pub open spec fn env_entries(d: StrDictV, prefix: Seq<char>) -> Seq<(Seq<char>, Seq<char>)>
    decreases d.len(),
{
    if d.len() == 0 {
        Seq::empty()
    } else {
        env_entries(d.drop_last(), prefix) + (match d.last().1 {
            Value::Known(v) => seq![(prefix + d.last().0, v)],
            _ => Seq::empty(),
        })
    }
}

/// The environment pairs of an optional mapping: nothing when it is
/// absent or unknown.
pub open spec fn env_of(m: Value<StrDictV>, prefix: Seq<char>) -> Seq<(Seq<char>, Seq<char>)> {
    match m {
        Value::Known(d) => env_entries(d, prefix),
        _ => Seq::empty(),
    }
}

/// Build the environment pairs of one mapping, each key prefixed.
pub fn env_pairs(m: &Value<Dict<Value<String>>>, prefix: &str) -> (r: Vec<(String, String)>)
    ensures
        pair_views(r@) =~= env_of(m@, prefix@),
{
    let mut r: Vec<(String, String)> = Vec::new();
    match m {
        Value::Known(d) => {
            let n = d.entries.len();
            let mut i: usize = 0;
            while i < n
                invariant
                    n == d.entries@.len(),
                    i <= n,
                    pair_views(r@) =~= env_entries(d@.subrange(0, i as int), prefix@),
                decreases n - i,
            {
                let ghost prev = d@.subrange(0, i as int);
                let ghost cur = d@.subrange(0, i as int + 1);
                proof {
                    assert(cur.drop_last() =~= prev);
                    assert(cur.last() == d@[i as int]);
                }
                match &d.entries[i].1 {
                    Value::Known(v) => {
                        let ghost old_r = r@;
                        let mut key = prefix.to_owned();
                        key.append(d.entries[i].0.as_str());
                        r.push((key, v.clone()));
                        proof {
                            assert(pair_views(r@) =~= pair_views(old_r).push(
                                (prefix@ + d@[i as int].0, d@[i as int].1->Known_0),
                            ));
                            assert(pair_views(r@) =~= env_entries(cur, prefix@));
                        }
                    },
                    _ => {
                        proof {
                            assert(env_entries(cur, prefix@) =~= env_entries(prev, prefix@));
                        }
                    },
                }
                i = i + 1;
            }
            proof {
                assert(d@.subrange(0, n as int) =~= d@);
            }
        },
        _ => {},
    }
    r
}

/// Append one fixed variable to an environment.
pub fn push_var(env: &mut Vec<(String, String)>, name: &str, val: String)
    ensures
        pair_views(final(env)@) =~= pair_views(old(env)@).push((name@, val@)),
{
    env.push((name.to_owned(), val));
    proof {
        assert(pair_views(final(env)@) =~= pair_views(old(env)@).push((name@, val@)));
    }
}

/// The base environment extended with a command block's own variables
/// (known values only, unprefixed, appended after the base pairs).
pub fn with_env(base: &Vec<(String, String)>, extra: &Value<Dict<Value<String>>>) -> (r: Vec<
    (String, String),
>)
    ensures
        pair_views(r@) =~= pair_views(base@) + env_of(extra@, Seq::<char>::empty()),
{
    let mut r: Vec<(String, String)> = Vec::new();
    let n = base.len();
    let mut i: usize = 0;
    while i < n
        invariant
            n == base@.len(),
            i <= n,
            r@.len() == i,
            forall|j: int| #![auto]
                0 <= j < i ==> r@[j].0@ == base@[j].0@ && r@[j].1@ == base@[j].1@,
        decreases n - i,
    {
        r.push((base[i].0.clone(), base[i].1.clone()));
        i = i + 1;
    }
    proof {
        assert(pair_views(r@) =~= pair_views(base@));
    }
    let ghost base_done = r@;
    let mut extra_pairs = env_pairs(extra, "");
    let ghost extra_views = pair_views(extra_pairs@);
    r.append(&mut extra_pairs);
    proof {
        reveal_strlit("");
        assert(""@ =~= Seq::<char>::empty());
        assert(extra_views =~= env_of(extra@, Seq::<char>::empty()));
        assert(pair_views(r@) =~= pair_views(base_done) + extra_views);
    }
    r
}

} // verus!
