//! The motor control panel: which firmware versions it works with.

use vstd::prelude::*;

use crate::text::{
    chars_of, dec_digits, digit_value, parse_u32_radix, parse_unsigned, split, split_chars, views,
};

verus! {

/// A character that can be part of a version number: an ASCII digit or `.`.
pub open spec fn is_version_char(c: char) -> bool {
    digit_value(c) < 10 || c == '.'
}

/// The runs of version characters of `s`, as cut at every other character.
pub open spec fn version_runs(s: Seq<char>) -> Seq<Seq<char>> {
    split(s.map_values(|c: char| if is_version_char(c) { c } else { ' ' }), ' ')
}

/// The `(major, minor)` of a run: its first two `.`-separated segments, when
/// there are at least two and both read as `u32` numbers.
pub open spec fn run_version(run: Seq<char>) -> Option<(nat, nat)> {
    let segs = split(run, '.');
    if segs.len() >= 2 {
        match (parse_unsigned(segs[0], 10, 0xffff_ffff), parse_unsigned(segs[1], 10, 0xffff_ffff)) {
            (Some(a), Some(b)) => Some((a, b)),
            _ => None,
        }
    } else {
        None
    }
}

/// The version given by the last run that holds one.
pub open spec fn last_version(runs: Seq<Seq<char>>) -> Option<(nat, nat)>
    decreases runs.len(),
{
    if runs.len() == 0 {
        None
    } else {
        match run_version(runs.last()) {
            Some(v) => Some(v),
            None => last_version(runs.drop_last()),
        }
    }
}

/// The version `(major, minor)` is 1.2 or later.
pub open spec fn at_least_1_2(v: (nat, nat)) -> bool {
    v.0 > 1 || (v.0 == 1 && v.1 >= 2)
}

/// The motor control panel accepts the firmware version string `s`: its
/// last version number is 1.2 or later, or it holds none.
pub open spec fn version_ok(s: Seq<char>) -> bool {
    match last_version(version_runs(s)) {
        Some(v) => at_least_1_2(v),
        None => true,
    }
}

/// The version of one run (see [`run_version`]).
fn version_of_run(run: &Vec<char>) -> (r: Option<(u32, u32)>)
    ensures
        match r {
            Some(v) => run_version(run@) == Some((v.0 as nat, v.1 as nat)),
            None => run_version(run@) is None,
        },
{
    let segs = split_chars(run, '.');
    if segs.len() < 2 {
        return None;
    }
    assert(views(segs@)[0] == segs@[0]@);
    assert(views(segs@)[1] == segs@[1]@);
    match (parse_u32_radix(&segs[0], 10), parse_u32_radix(&segs[1], 10)) {
        (Some(a), Some(b)) => Some((a, b)),
        _ => None,
    }
}

/// Returns true if the firmware version string contains a version >= 1.2.
/// The version is the last `major.minor[.patch]` pattern found in the string,
/// e.g. "NEVC-MTR1-t01-1.2.0" or "1.2.0".
pub fn firmware_version_ok(fw_ver: &str) -> (r: bool)
    ensures
        r == version_ok(fw_ver@),
{
    let v = chars_of(fw_ver);
    let mut m: Vec<char> = Vec::new();
    let mut i: usize = 0;
    while i < v.len()
        invariant
            i <= v.len(),
            m@ == v@.take(i as int).map_values(
                |c: char| if is_version_char(c) { c } else { ' ' },
            ),
        decreases v.len() - i,
    {
        let c = v[i];
        let d = crate::text::char_digit_value(c);
        let k = if d < 10 || c == '.' {
            c
        } else {
            ' '
        };
        m.push(k);
        i = i + 1;
        assert(v@.take(i as int).map_values(|c: char| if is_version_char(c) { c } else { ' ' })
            =~= v@.take((i - 1) as int).map_values(
            |c: char| if is_version_char(c) { c } else { ' ' },
        ).push(k));
    }
    assert(v@.take(v.len() as int) =~= v@);
    let runs = split_chars(&m, ' ');
    let ghost all = views(runs@);
    let mut best: Option<(u32, u32)> = None;
    let mut j: usize = 0;
    assert(all.take(0) =~= Seq::<Seq<char>>::empty());
    while j < runs.len()
        invariant
            j <= runs.len(),
            all == views(runs@),
            match best {
                Some(b) => last_version(all.take(j as int)) == Some((b.0 as nat, b.1 as nat)),
                None => last_version(all.take(j as int)) is None,
            },
        decreases runs.len() - j,
    {
        assert(all.take(j + 1).drop_last() =~= all.take(j as int));
        assert(all.take(j + 1).last() == runs@[j as int]@);
        match version_of_run(&runs[j]) {
            Some(b) => {
                best = Some(b);
            },
            None => {},
        }
        j = j + 1;
    }
    assert(all.take(runs.len() as int) =~= all);
    match best {
        Some((major, minor)) => major > 1 || (major == 1 && minor >= 2),
        None => true,
    }
}

/// All characters of `x` are ASCII digits or `.`.
spec fn all_version_chars(x: Seq<char>) -> bool {
    forall|j: int| 0 <= j < x.len() ==> is_version_char(#[trigger] x[j])
}

proof fn lemma_version_tail(p: Seq<char>, x: Seq<char>, major: nat, minor: nat)
    requires
        p.len() == 0 || (!(48 <= (p.last() as u32) <= 57) && p.last() != '.'),
        all_version_chars(x),
        run_version(x) == Some((major, minor)),
    ensures
        version_ok(p + x) == (major > 1 || (major == 1 && minor >= 2)),
{
    let f = |c: char| if is_version_char(c) { c } else { ' ' };
    assert(x.map_values(f) =~= x);
    assert(!x.contains(' ')) by {
        if x.contains(' ') {
            let j = choose|j: int| 0 <= j < x.len() && x[j] == ' ';
            assert(is_version_char(x[j]));
        }
    }
    let m = (p + x).map_values(f);
    if p.len() == 0 {
        assert(m =~= x);
        crate::text::lemma_split_single(x, ' ');
        assert(seq![x].last() == x);
    } else {
        let q = p.drop_last();
        assert(!is_version_char(p.last()));
        assert(m =~= q.map_values(f) + seq![' '] + x);
        crate::text::lemma_split_sep_then(q.map_values(f), ' ', x);
    }
}

proof fn lemma_dec_plain(n: nat)
    ensures
        all_version_chars(dec_digits(n)),
        !dec_digits(n).contains('.'),
        parse_unsigned(dec_digits(n), 10, 0xffff_ffff) == Some(n) || n > 0xffff_ffff,
{
    crate::text::lemma_dec_digits(n);
    let d = dec_digits(n);
    assert forall|j: int| 0 <= j < d.len() implies is_version_char(#[trigger] d[j]) by {}
    if d.contains('.') {
        let j = choose|j: int| 0 <= j < d.len() && d[j] == '.';
        crate::text::lemma_digit_char_kind(d[j]);
    }
    if n <= 0xffff_ffff {
        crate::text::lemma_parse_dec(n, 0xffff_ffff);
    }
}

/// A firmware version string that ends with a version number `M.N.P` or
/// `M.N` (not glued to a digit or `.` before it) is accepted exactly when
/// `(M, N)` is 1.2 or later, whatever text comes before it: for instance
/// `NEVC-MTR1-t01-1.2.0` is accepted and `NEVC-MTR1-t01-1.1.0` is not.
pub proof fn lemma_version_gate(p: Seq<char>, major: u32, minor: u32, patch: u32)
    requires
        p.len() == 0 || (!(48 <= (p.last() as u32) <= 57) && p.last() != '.'),
    ensures
        version_ok(
            p + dec_digits(major as nat) + seq!['.'] + dec_digits(minor as nat) + seq!['.']
                + dec_digits(patch as nat),
        ) == (major > 1 || (major == 1 && minor >= 2)),
        version_ok(p + dec_digits(major as nat) + seq!['.'] + dec_digits(minor as nat)) == (major
            > 1 || (major == 1 && minor >= 2)),
{
    let a = dec_digits(major as nat);
    let b = dec_digits(minor as nat);
    let c = dec_digits(patch as nat);
    lemma_dec_plain(major as nat);
    lemma_dec_plain(minor as nat);
    lemma_dec_plain(patch as nat);
    let dot = seq!['.'];
    let x3 = a + dot + b + dot + c;
    let x2 = a + dot + b;
    let f3 = seq![a, b, c];
    let f2 = seq![a, b];
    let f1 = seq![a];
    assert(f3.drop_last() =~= f2);
    assert(f2.drop_last() =~= f1);
    assert(crate::text::join(f1, dot) == a);
    assert(crate::text::join(f2, dot) == crate::text::join(f1, dot) + dot + b);
    assert(crate::text::join(f3, dot) == crate::text::join(f2, dot) + dot + c);
    assert(crate::text::join(f2, dot) =~= x2);
    assert(crate::text::join(f3, dot) =~= x3);
    assert forall|i: int| 0 <= i < f3.len() implies !(#[trigger] f3[i]).contains('.') by {}
    assert forall|i: int| 0 <= i < f2.len() implies !(#[trigger] f2[i]).contains('.') by {}
    crate::text::lemma_split_join(f3, '.');
    crate::text::lemma_split_join(f2, '.');
    assert(all_version_chars(x3)) by {
        assert forall|j: int| 0 <= j < x3.len() implies is_version_char(#[trigger] x3[j]) by {
            if j < a.len() {
                assert(x3[j] == a[j]);
            } else if j == a.len() || j == a.len() + 1 + b.len() {
            } else if j < a.len() + 1 + b.len() {
                assert(x3[j] == b[j - a.len() - 1]);
            } else {
                assert(x3[j] == c[j - a.len() - 2 - b.len()]);
            }
        }
    }
    assert(all_version_chars(x2)) by {
        assert forall|j: int| 0 <= j < x2.len() implies is_version_char(#[trigger] x2[j]) by {
            if j < a.len() {
                assert(x2[j] == a[j]);
            } else if j > a.len() {
                assert(x2[j] == b[j - a.len() - 1]);
            }
        }
    }
    lemma_version_tail(p, x3, major as nat, minor as nat);
    lemma_version_tail(p, x2, major as nat, minor as nat);
    assert(p + a + dot + b + dot + c =~= p + x3);
    assert(p + a + dot + b =~= p + x2);
}

} // verus!
