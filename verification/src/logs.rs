//! Log reading: the systemd journal and the files under `/var/log`.
use vstd::prelude::*;
use crate::opservice::{unit_ok, valid_unit};
use crate::paths::{path_starts_with, path_starts_with_chars};
use crate::text::{
    chars_lt, chars_of, decimal, decimal_of, find_chars, find_sub, join, join_from, lemma_find_sub,
    lemma_seq_lt_asymmetric, lemma_seq_lt_irreflexive, lemma_seq_lt_total, lemma_seq_lt_transitive, lines,
    lines_of, seq_lt, string_of, string_views, views,
};

verus! {

/// Why a log request was refused.
#[derive(Clone, Copy, PartialEq, Eq, Debug, Structural)]
pub enum LogError {
    /// The unit name was rejected.
    BadUnit,
    /// Only files under `/var/log`, without `..`, can be read.
    OutsideVarLog,
}

/// A line count brought into `1..=2000`.
pub open spec fn clamp_lines(n: nat) -> nat {
    if n < 1 {
        1
    } else if n > 2000 {
        2000
    } else {
        n
    }
}

fn clamp_lines_of(n: u32) -> (r: u64)
    ensures
        r == clamp_lines(n as nat),
{
    if n < 1 {
        1
    } else if n > 2000 {
        2000
    } else {
        n as u64
    }
}

/// The `journalctl` arguments for the last `lines` lines (brought into
/// 1..=2000), newest first, of one unit or of the whole journal; the unit
/// name is checked first.
pub fn journal_args(unit: Option<&str>, lines: u32) -> (r: Result<Vec<String>, LogError>)
    ensures
        match unit {
            None => r matches Ok(v) && string_views(v@) == seq![
                "--no-pager"@,
                "--reverse"@,
                "--lines"@,
                decimal(clamp_lines(lines as nat)),
            ],
            Some(u) => if valid_unit(u@) {
                r matches Ok(v) && string_views(v@) == seq![
                    "--no-pager"@,
                    "--reverse"@,
                    "--lines"@,
                    decimal(clamp_lines(lines as nat)),
                    "-u"@,
                    u@,
                ]
            } else {
                r == Err::<Vec<String>, LogError>(LogError::BadUnit)
            },
        },
{
    let n = clamp_lines_of(lines);
    let mut v: Vec<String> = Vec::new();
    v.push("--no-pager".to_owned());
    v.push("--reverse".to_owned());
    v.push("--lines".to_owned());
    v.push(string_of(&decimal_of(n)));
    match unit {
        None => {
            assert(string_views(v@) =~= seq!["--no-pager"@, "--reverse"@, "--lines"@, decimal(clamp_lines(lines as nat))]);
            Ok(v)
        },
        Some(u) => {
            if !unit_ok(u) {
                return Err(LogError::BadUnit);
            }
            v.push("-u".to_owned());
            v.push(u.to_owned());
            assert(string_views(v@) =~= seq![
                "--no-pager"@,
                "--reverse"@,
                "--lines"@,
                decimal(clamp_lines(lines as nat)),
                "-u"@,
                u@,
            ]);
            Ok(v)
        },
    }
}

/// The journal output put back in time order: its lines reversed, joined
/// by newlines.
pub fn chronological(text: &str) -> (s: String)
    ensures
        s@ == join(lines(text@).reverse(), "\n"@),
{
    let cv = chars_of(text);
    let ls = lines_of(&cv);
    let ghost all = views(ls@);
    let mut rev: Vec<Vec<char>> = Vec::new();
    let mut k: usize = ls.len();
    while k > 0
        invariant
            k <= ls@.len(),
            all == views(ls@),
            views(rev@) == all.reverse().take(ls@.len() - k),
        decreases k,
    {
        let ghost before = views(rev@);
        rev.push(ls[k - 1].clone());
        assert(views(rev@) =~= before.push(all[k - 1]));
        k = k - 1;
        assert(views(rev@) =~= all.reverse().take(ls@.len() - k));
    }
    assert(all.reverse().take(ls@.len() as int) =~= all.reverse());
    let r = join_from(&rev, 0, &chars_of("\n"));
    assert(views(rev@).skip(0) =~= views(rev@));
    string_of(&r)
}

/// A log file the panel may read: under `/var/log` (whole components) and
/// without `..` anywhere in the path.
pub open spec fn tail_allowed(path: Seq<char>) -> bool {
    path_starts_with(path, "/var/log"@) && find_sub(path, ".."@) is None
}

/// The `tail` arguments for the last `lines` lines (brought into 1..=2000)
/// of a log file.
pub fn tail_args(path: &str, lines: u32) -> (r: Result<Vec<String>, LogError>)
    ensures
        !tail_allowed(path@) ==> r == Err::<Vec<String>, LogError>(LogError::OutsideVarLog),
        tail_allowed(path@) ==> (r matches Ok(v) && string_views(v@) == seq![
            "-n"@,
            decimal(clamp_lines(lines as nat)),
            path@,
        ]),
{
    let p = chars_of(path);
    if !path_starts_with_chars(&p, &chars_of("/var/log")) || find_chars(&p, &chars_of("..")).is_some() {
        return Err(LogError::OutsideVarLog);
    }
    let n = clamp_lines_of(lines);
    let mut v: Vec<String> = Vec::new();
    v.push("-n".to_owned());
    v.push(string_of(&decimal_of(n)));
    v.push(path.to_owned());
    assert(string_views(v@) =~= seq!["-n"@, decimal(clamp_lines(lines as nat)), path@]);
    Ok(v)
}

/// Character sequences in non-decreasing order.
pub open spec fn sorted_seqs(s: Seq<Seq<char>>) -> bool {
    forall|i: int, j: int| 0 <= i < j < s.len() ==> !seq_lt(#[trigger] s[j], #[trigger] s[i])
}

/// Sorts names (`sort` on strings): the same names, in order.
pub fn sort_names(names: Vec<String>) -> (r: Vec<String>)
    ensures
        sorted_seqs(string_views(r@)),
        string_views(r@).to_multiset() == string_views(names@).to_multiset(),
{
    broadcast use vstd::seq_lib::group_to_multiset_ensures;

    let ghost orig = string_views(names@);
    let mut rest = names;
    let mut out: Vec<String> = Vec::new();
    assert(string_views(out@) =~= Seq::<Seq<char>>::empty());
    assert(string_views(out@).to_multiset() =~= vstd::multiset::Multiset::<Seq<char>>::empty());
    while rest.len() > 0
        invariant
            sorted_seqs(string_views(out@)),
            string_views(out@).to_multiset().add(string_views(rest@).to_multiset()) == orig.to_multiset(),
        decreases rest@.len(),
    {
        let ghost rv = string_views(rest@);
        let ghost ov = string_views(out@);
        let x = rest.remove(0);
        assert(string_views(rest@) =~= rv.remove(0));
        assert(rv[0] == x@);
        let xc = chars_of(x.as_str());
        let mut p: usize = 0;
        while p < out.len() && !chars_lt(&xc, &chars_of(out[p].as_str()))
            invariant
                p <= out@.len(),
                string_views(out@) == ov,
                xc@ == x@,
                forall|i: int| 0 <= i < p ==> !seq_lt(x@, #[trigger] ov[i]),
            decreases out@.len() - p,
        {
            assert(ov[p as int] == out@[p as int]@);
            p = p + 1;
        }
        proof {
            if p < out@.len() {
                assert(ov[p as int] == out@[p as int]@);
            }
        }
        let ghost xv = x@;
        out.insert(p, x);
        proof {
            let nv = string_views(out@);
            assert(nv =~= ov.insert(p as int, xv));
            assert forall|i: int, j: int| 0 <= i < j < nv.len() implies !seq_lt(#[trigger] nv[j], #[trigger] nv[i]) by {
                if j < p {
                } else if j == p {
                    lemma_seq_lt_total(xv, ov[i]);
                    if seq_lt(xv, ov[i]) {
                    } else if xv == ov[i] {
                        lemma_seq_lt_irreflexive(xv);
                    } else {
                        lemma_seq_lt_asymmetric(ov[i], xv);
                    }
                } else if i > p {
                    assert(nv[i] == ov[i - 1]);
                    assert(nv[j] == ov[j - 1]);
                } else if i == p {
                    assert(nv[j] == ov[j - 1]);
                    if seq_lt(ov[j - 1], xv) {
                        lemma_seq_lt_transitive(ov[j - 1], xv, ov[p as int]);
                        if j - 1 == p {
                            lemma_seq_lt_irreflexive(ov[p as int]);
                        }
                    }
                } else {
                    assert(nv[j] == ov[j - 1]);
                }
            }
            vstd::seq_lib::to_multiset_insert(ov, p as int, xv);
            assert(nv.to_multiset() =~= ov.to_multiset().insert(xv));
            rv.to_multiset_ensures();
            assert(rv.len() > 0);
            assert(rv.remove(0).to_multiset() =~= rv.to_multiset().remove(xv));
            assert(rv.contains(xv)) by {
                assert(rv[0] == xv);
            }
            assert(nv.to_multiset().add(string_views(rest@).to_multiset()) =~= ov.to_multiset().add(
                rv.to_multiset(),
            ));
        }
    }
    assert(string_views(rest@) =~= Seq::<Seq<char>>::empty());
    assert(string_views(rest@).to_multiset() =~= vstd::multiset::Multiset::<Seq<char>>::empty());
    assert(string_views(out@).to_multiset().add(string_views(rest@).to_multiset()) =~= string_views(out@).to_multiset());
    out
}

} // verus!
