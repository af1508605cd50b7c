//! Parsing an import identifier.
//!
//! An existing resource is imported from an opaque string: a
//! comma-separated list of `key=value` pairs (a bare `key` counts as an
//! empty value, an empty item is skipped, a repeated key keeps its last
//! value).  The parsed pairs become the imported outputs.

use vstd::prelude::*;
use vstd::string::StrSliceExecFns;

use crate::dict::{dict_map, dict_wf, Dict};
use crate::value::Value;

verus! {

/// The comma-separated items of `s`, split in order (an empty string is
/// one empty item).
pub open spec fn split_commas(s: Seq<char>) -> Seq<Seq<char>>
    decreases s.len(),
{
    if s.len() == 0 {
        seq![Seq::<char>::empty()]
    } else if s.last() == ',' {
        split_commas(s.drop_last()).push(Seq::empty())
    } else {
        let p = split_commas(s.drop_last());
        p.update(p.len() - 1, p.last().push(s.last()))
    }
}

/// Splitting always yields at least one item.
pub proof fn lemma_split_commas_nonempty(s: Seq<char>)
    ensures
        split_commas(s).len() >= 1,
    decreases s.len(),
{
    if s.len() > 0 {
        lemma_split_commas_nonempty(s.drop_last());
    }
}

/// The key and value of one item: what stands before and after its first
/// `=` (all of it, and an empty value, when there is none).
pub open spec fn split_eq(s: Seq<char>) -> (Seq<char>, Seq<char>)
    decreases s.len(),
{
    if s.len() == 0 {
        (Seq::<char>::empty(), Seq::<char>::empty())
    } else if s[0] == '=' {
        (Seq::<char>::empty(), s.skip(1))
    } else {
        let kv = split_eq(s.skip(1));
        (seq![s[0]] + kv.0, kv.1)
    }
}

/// Where the first `=` sits, the key is what precedes it and the value
/// what follows.
pub proof fn lemma_split_eq_at(s: Seq<char>, j: int)
    requires
        0 <= j < s.len(),
        s[j] == '=',
        forall|a: int| 0 <= a < j ==> s[a] != '=',
    ensures
        split_eq(s).0 =~= s.subrange(0, j),
        split_eq(s).1 =~= s.subrange(j + 1, s.len() as int),
    decreases j,
{
    if j == 0 {
        assert(s.skip(1) =~= s.subrange(1, s.len() as int));
    } else {
        assert(s[0] != '=');
        let t = s.skip(1);
        assert(t[j - 1] == '=');
        assert forall|a: int| 0 <= a < j - 1 implies t[a] != '=' by {
            assert(t[a] == s[a + 1]);
        }
        lemma_split_eq_at(t, j - 1);
        assert(split_eq(s).0 =~= seq![s[0]] + t.subrange(0, j - 1));
        assert(seq![s[0]] + t.subrange(0, j - 1) =~= s.subrange(0, j));
        assert(t.subrange(j, t.len() as int) =~= s.subrange(j + 1, s.len() as int));
    }
}

/// Without an `=`, the whole item is the key and the value is empty.
pub proof fn lemma_split_eq_none(s: Seq<char>)
    requires
        forall|a: int| 0 <= a < s.len() ==> s[a] != '=',
    ensures
        split_eq(s).0 =~= s,
        split_eq(s).1 =~= Seq::<char>::empty(),
    decreases s.len(),
{
    if s.len() > 0 {
        let t = s.skip(1);
        assert forall|a: int| 0 <= a < t.len() implies t[a] != '=' by {
            assert(t[a] == s[a + 1]);
        }
        lemma_split_eq_none(t);
        assert(seq![s[0]] + t =~= s);
    }
}

/// The mapping a list of items denotes: each non-empty item binds its
/// key to its value, later items overriding earlier ones.
pub open spec fn segments_map(segs: Seq<Seq<char>>) -> Map<Seq<char>, Value<Seq<char>>>
    decreases segs.len(),
{
    if segs.len() == 0 {
        Map::empty()
    } else {
        let m = segments_map(segs.drop_last());
        let seg = segs.last();
        if seg.len() == 0 {
            m
        } else {
            m.insert(split_eq(seg).0, Value::Known(split_eq(seg).1))
        }
    }
}

/// The mapping an import identifier denotes.
pub open spec fn import_map(s: Seq<char>) -> Map<Seq<char>, Value<Seq<char>>> {
    segments_map(split_commas(s))
}

/// Apply one item to the outputs being built.
fn apply_segment(d: &mut Dict<Value<String>>, seg: &str)
    requires
        dict_wf(old(d)@),
    ensures
        dict_wf(final(d)@),
        seg@.len() == 0 ==> final(d)@ == old(d)@,
        seg@.len() > 0 ==> dict_map(final(d)@) =~= dict_map(old(d)@).insert(
            split_eq(seg@).0,
            Value::Known(split_eq(seg@).1),
        ),
{
    let m = seg.unicode_len();
    if m == 0 {
        return ;
    }
    let mut j: usize = 0;
    let mut scanning = true;
    while scanning && j < m
        invariant
            m == seg@.len(),
            j <= m,
            forall|a: int| 0 <= a < j ==> seg@[a] != '=',
            !scanning ==> j < m && seg@[j as int] == '=',
        decreases m - j + (if scanning { 1int } else { 0int }),
    {
        if seg.get_char(j) == '=' {
            scanning = false;
        } else {
            j = j + 1;
        }
    }
    let key: String;
    let val: String;
    if j < m {
        proof {
            lemma_split_eq_at(seg@, j as int);
        }
        key = seg.substring_char(0, j).to_owned();
        val = seg.substring_char(j + 1, m).to_owned();
    } else {
        proof {
            lemma_split_eq_none(seg@);
        }
        key = seg.to_owned();
        val = String::new();
    }
    proof {
        assert(key@ =~= split_eq(seg@).0);
        assert(val@ =~= split_eq(seg@).1);
    }
    d.set(key, Value::Known(val));
}

/// Parse an import identifier into the outputs it declares.
pub fn parse_outputs(id: &str) -> (r: Dict<Value<String>>)
    ensures
        dict_wf(r@),
        dict_map(r@) =~= import_map(id@),
{
    let n = id.unicode_len();
    let mut d = Dict::<Value<String>>::empty();
    let mut start: usize = 0;
    let mut i: usize = 0;
    while i < n
        invariant
            n == id@.len(),
            start <= i <= n,
            dict_wf(d@),
            split_commas(id@.subrange(0, i as int)).len() >= 1,
            dict_map(d@) =~= segments_map(
                split_commas(id@.subrange(0, i as int)).drop_last(),
            ),
            split_commas(id@.subrange(0, i as int)).last() =~= id@.subrange(
                start as int,
                i as int,
            ),
        decreases n - i,
    {
        let ghost pre = id@.subrange(0, i as int);
        let ghost cur = id@.subrange(0, i as int + 1);
        proof {
            assert(cur.drop_last() =~= pre);
            assert(cur.last() == id@[i as int]);
            lemma_split_commas_nonempty(pre);
            lemma_split_commas_nonempty(cur);
        }
        if id.get_char(i) == ',' {
            let seg = id.substring_char(start, i);
            proof {
                assert(seg@ =~= split_commas(pre).last());
                assert(split_commas(cur) =~= split_commas(pre).push(Seq::empty()));
                assert(split_commas(cur).drop_last() =~= split_commas(pre));
                assert(split_commas(pre) =~= split_commas(pre).drop_last().push(
                    split_commas(pre).last(),
                ));
                assert(segments_map(split_commas(pre)) == (if split_commas(pre).last().len() == 0 {
                    segments_map(split_commas(pre).drop_last())
                } else {
                    segments_map(split_commas(pre).drop_last()).insert(
                        split_eq(split_commas(pre).last()).0,
                        Value::Known(split_eq(split_commas(pre).last()).1),
                    )
                }));
            }
            apply_segment(&mut d, seg);
            proof {
                assert(dict_map(d@) =~= segments_map(split_commas(cur).drop_last()));
                assert(split_commas(cur).last() =~= id@.subrange(i as int + 1, i as int + 1));
            }
            start = i + 1;
        } else {
            proof {
                let q = split_commas(pre);
                assert(split_commas(cur) =~= q.update(q.len() - 1, q.last().push(id@[i as int])));
                assert(split_commas(cur).drop_last() =~= q.drop_last());
                assert(split_commas(cur).last() =~= id@.subrange(start as int, i as int + 1));
            }
        }
        i = i + 1;
    }
    proof {
        assert(id@.subrange(0, n as int) =~= id@);
        lemma_split_commas_nonempty(id@);
    }
    let seg = id.substring_char(start, n);
    proof {
        assert(seg@ =~= split_commas(id@).last());
        assert(split_commas(id@) =~= split_commas(id@).drop_last().push(split_commas(id@).last()));
        assert(segments_map(split_commas(id@)) == (if split_commas(id@).last().len() == 0 {
            segments_map(split_commas(id@).drop_last())
        } else {
            segments_map(split_commas(id@).drop_last()).insert(
                split_eq(split_commas(id@).last()).0,
                Value::Known(split_eq(split_commas(id@).last()).1),
            )
        }));
    }
    apply_segment(&mut d, seg);
    d
}

} // verus!
