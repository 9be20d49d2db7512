//! Emotion recognition support: where the model lives, whether it is
//! installed, and the labels of its classes.
use vstd::prelude::*;
use crate::files::{join_path, join_spec};
use crate::text::{chars_of, eq_chars, string_views};
use crate::ai::{parse_i64, parse_i64_of};

verus! {

/// The model directory under the data directory.
pub open spec fn model_dir_spec(data_dir: Seq<char>) -> Seq<char> {
    join_spec(data_dir, "models/emotion"@)
}

/// The directory holding the emotion model: `models/emotion` under the
/// data directory.
pub fn model_dir(data_dir: &str) -> (s: String)
    ensures
        s@ == model_dir_spec(data_dir@),
{
    join_path(data_dir, "models/emotion")
}

/// The two files the model needs: the quantized ONNX model and the
/// tokenizer.
pub fn model_files(data_dir: &str) -> (r: (String, String))
    ensures
        r.0@ == join_spec(model_dir_spec(data_dir@), "model_quantized.onnx"@),
        r.1@ == join_spec(model_dir_spec(data_dir@), "tokenizer.json"@),
{
    let d = model_dir(data_dir);
    (join_path(d.as_str(), "model_quantized.onnx"), join_path(d.as_str(), "tokenizer.json"))
}

/// The model is ready when both of its files are regular files.
pub fn ready(model_is_file: bool, tokenizer_is_file: bool) -> (b: bool)
    ensures
        b == (model_is_file && tokenizer_is_file),
{
    model_is_file && tokenizer_is_file
}

/// The labels used when the model's configuration gives none.
pub open spec fn default_labels() -> Seq<Seq<char>> {
    seq!["positive"@, "neutral"@, "negative"@]
}

/// Where a pair with key `k` goes among pairs ordered by key: after every
/// pair with a key not above `k` (so equal keys keep their order).
pub open spec fn pair_pos(s: Seq<(i64, Seq<char>)>, k: i64) -> int
    decreases s.len(),
{
    if s.len() == 0 {
        0
    } else if s.last().0 > k {
        pair_pos(s.drop_last(), k)
    } else {
        s.len() as int
    }
}

/// The pairs ordered by key, stably (`sort_by_key`).
pub open spec fn pairs_by_key(s: Seq<(i64, Seq<char>)>) -> Seq<(i64, Seq<char>)>
    decreases s.len(),
{
    if s.len() == 0 {
        Seq::empty()
    } else {
        let t = pairs_by_key(s.drop_last());
        t.insert(pair_pos(t, s.last().0), s.last())
    }
}

/// The class labels from the model configuration's `id2label` pairs:
/// ordered by id, or the default labels when there are none.
pub open spec fn labels_spec(pairs: Seq<(i64, Seq<char>)>) -> Seq<Seq<char>> {
    if pairs.len() == 0 {
        default_labels()
    } else {
        pairs_by_key(pairs).map_values(|p: (i64, Seq<char>)| p.1)
    }
}

pub open spec fn pair_views(v: Seq<(i64, String)>) -> Seq<(i64, Seq<char>)> {
    v.map_values(|p: (i64, String)| (p.0, p.1@))
}

/// The class labels (see `labels_spec`), from the `id2label` pairs read
/// from the model configuration.
pub fn labels_from_pairs(pairs: Vec<(i64, String)>) -> (r: Vec<String>)
    ensures
        string_views(r@) == labels_spec(pair_views(pairs@)),
{
    if pairs.len() == 0 {
        let mut v: Vec<String> = Vec::new();
        v.push("positive".to_owned());
        v.push("neutral".to_owned());
        v.push("negative".to_owned());
        assert(string_views(v@) =~= default_labels());
        return v;
    }
    let ghost orig = pair_views(pairs@);
    let mut rest = pairs;
    let mut out: Vec<(i64, String)> = Vec::new();
    let ghost mut k: int = 0;
    assert(orig.take(0) =~= Seq::<(i64, Seq<char>)>::empty());
    assert(pair_views(out@) =~= Seq::<(i64, Seq<char>)>::empty());
    assert(pair_views(rest@) =~= orig.skip(0));
    while rest.len() > 0
        invariant
            0 <= k <= orig.len(),
            pair_views(rest@) == orig.skip(k),
            pair_views(out@) == pairs_by_key(orig.take(k)),
        decreases rest@.len(),
    {
        let ghost rv = pair_views(rest@);
        let x = rest.remove(0);
        assert(pair_views(rest@) =~= rv.drop_first());
        assert(orig.take(k + 1).drop_last() =~= orig.take(k));
        assert(orig[k] == rv[0]);
        assert(orig.take(k + 1).last() == (x.0, x.1@));
        let ghost t = pair_views(out@);
        let mut p: usize = out.len();
        assert(t.take(p as int) =~= t);
        while p > 0 && out[p - 1].0 > x.0
            invariant
                p <= out@.len(),
                t == pair_views(out@),
                pair_pos(t, x.0) == pair_pos(t.take(p as int), x.0),
            decreases p,
        {
            assert(t.take(p as int).drop_last() =~= t.take(p - 1));
            assert(t.take(p as int).last().0 == out@[p - 1].0);
            p = p - 1;
        }
        proof {
            if p > 0 {
                assert(t.take(p as int).last().0 == out@[p - 1].0);
            }
        }
        let ghost xv = (x.0, x.1@);
        out.insert(p, x);
        assert(pair_views(out@) =~= t.insert(p as int, xv));
        proof {
            k = k + 1;
            assert(orig.skip(k) =~= rv.drop_first());
        }
    }
    assert(orig.take(orig.len() as int) =~= orig);
    let ghost sorted = pair_views(out@);
    let mut labels: Vec<String> = Vec::new();
    let mut i: usize = 0;
    while i < out.len()
        invariant
            i <= out@.len(),
            sorted == pair_views(out@),
            string_views(labels@) == sorted.take(i as int).map_values(|p: (i64, Seq<char>)| p.1),
        decreases out@.len() - i,
    {
        let ghost before = string_views(labels@);
        assert(sorted[i as int].1 == out@[i as int].1@);
        labels.push(out[i].1.as_str().to_owned());
        assert(string_views(labels@) =~= before.push(sorted[i as int].1));
        assert(string_views(labels@) =~= sorted.take(i + 1).map_values(|p: (i64, Seq<char>)| p.1));
        i = i + 1;
    }
    assert(sorted.take(out@.len() as int) =~= sorted);
    labels
}

/// What `serde_json` reads from the model configuration: the members of
/// its `id2label` object, in the map's (key) order, each with its value when
/// that is a string; no members when the text is no JSON or has no such
/// object.
pub uninterp spec fn id2label_members(config: Seq<char>) -> Seq<(Seq<char>, Option<Seq<char>>)>;

pub open spec fn member_views(v: Seq<(String, Option<String>)>) -> Seq<(Seq<char>, Option<Seq<char>>)> {
    v.map_values(
        |m: (String, Option<String>)|
            (
                m.0@,
                match m.1 {
                    Some(s) => Some(s@),
                    None => None,
                },
            ),
    )
}

/// Reads the model configuration with `serde_json::from_str::<Value>`, then
/// `id2label` as an object and each value as a string. The contract names
/// the result.
#[verifier::external_body]
fn id2label_of(config: &str) -> (r: Vec<(String, Option<String>)>)
    ensures
        member_views(r@) == id2label_members(config@),
{
    let v: serde_json::Value = serde_json::from_str(config).unwrap_or_default();
    let map = v.get("id2label").and_then(|m| m.as_object());
    map.into_iter().flatten().map(|(k, val)| (k.clone(), val.as_str().map(String::from))).collect()
}

/// The `(id, label)` pairs among the members: those whose key reads as an
/// `i64` and whose value is a string, in order.
pub open spec fn id2label_pairs(ms: Seq<(Seq<char>, Option<Seq<char>>)>) -> Seq<(i64, Seq<char>)>
    decreases ms.len(),
{
    if ms.len() == 0 {
        Seq::empty()
    } else {
        let rest = id2label_pairs(ms.drop_last());
        match (parse_i64(ms.last().0), ms.last().1) {
            (Some(id), Some(label)) => rest.push((id, label)),
            _ => rest,
        }
    }
}

/// The `(id, label)` pairs among `id2label`'s members (see `id2label_pairs`).
pub fn pairs_of_members(members: Vec<(String, Option<String>)>) -> (r: Vec<(i64, String)>)
    ensures
        pair_views(r@) == id2label_pairs(member_views(members@)),
{
    let ghost mv = member_views(members@);
    let mut out: Vec<(i64, String)> = Vec::new();
    let mut i: usize = 0;
    while i < members.len()
        invariant
            i <= members@.len(),
            mv == member_views(members@),
            pair_views(out@) == id2label_pairs(mv.take(i as int)),
        decreases members@.len() - i,
    {
        proof {
            assert(mv.take(i + 1).drop_last() =~= mv.take(i as int));
            assert(mv.take(i + 1).last() == mv[i as int]);
        }
        let key = parse_i64_of(&chars_of(members[i].0.as_str()));
        match (key, &members[i].1) {
            (Some(id), Some(label)) => {
                let ghost before = out@;
                out.push((id, label.clone()));
                assert(pair_views(out@) =~= pair_views(before).push((id, label@)));
            },
            _ => {},
        }
        i = i + 1;
    }
    assert(mv.take(i as int) =~= mv);
    out
}

/// The class labels from the text of the model configuration: its
/// `id2label` pairs ordered by id, or the default labels when it has none
/// (an unreadable configuration reads as empty text).
pub fn labels_from_config(config: &str) -> (r: Vec<String>)
    ensures
        string_views(r@) == labels_spec(id2label_pairs(id2label_members(config@))),
{
    let members = id2label_of(config);
    labels_from_pairs(pairs_of_members(members))
}

/// The label shown when the model is not confident enough.
pub fn neutral_label() -> (s: &'static str)
    ensures
        s@ == "neutral"@,
{
    "neutral"
}


/// The label of a classification: the label of the best class when the
/// model is confident enough and that class has a label, else neutral.
pub fn class_label(labels: &Vec<String>, best: usize, confident: bool) -> (s: String)
    ensures
        s@ == (if confident && best < labels@.len() {
            labels@[best as int]@
        } else {
            "neutral"@
        }),
{
    if confident && best < labels.len() {
        labels[best].clone()
    } else {
        neutral_label().to_owned()
    }
}

/// The sign of a label's valence: one for positive, minus one for
/// negative, zero for any other label.
pub fn valence_sign(label: &str) -> (v: i8)
    ensures
        v == (if label@ == "positive"@ {
            1i8
        } else if label@ == "negative"@ {
            -1i8
        } else {
            0i8
        }),
{
    let c = chars_of(label);
    if eq_chars(&c, &chars_of("positive")) {
        1
    } else if eq_chars(&c, &chars_of("negative")) {
        -1
    } else {
        0
    }
}

} // verus!
