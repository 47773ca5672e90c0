//! Character-level text handling: whitespace trimming, splitting, joining,
//! and the decimal / hexadecimal number formats used by the SCPI protocol and
//! the firmware configuration files.

use vstd::prelude::*;

verus! {

// ---------------------------------------------------------------------------
// Conversions between `str` / `String` and character vectors
// ---------------------------------------------------------------------------

/// The characters of a string slice, in order.
pub fn chars_of(s: &str) -> (v: Vec<char>)
    ensures
        v@ == s@,
{
    let mut v: Vec<char> = Vec::new();
    for c in it: s.chars()
        invariant
            v@ == it.seq().take(it.index() as int),
            it.seq() == s@,
    {
        v.push(c);
    }
    v
}

/// Appends one character to a `String` (`String::push`).
#[verifier::external_body]
fn push_char(s: &mut String, c: char)
    ensures
        final(s)@ == old(s)@.push(c),
{
    s.push(c);
}

/// Builds a `String` holding exactly the given characters.
pub fn string_of(v: &Vec<char>) -> (s: String)
    ensures
        s@ == v@,
{
    let mut s = String::new();
    let mut i: usize = 0;
    while i < v.len()
        invariant
            i <= v.len(),
            s@ == v@.take(i as int),
        decreases v.len() - i,
    {
        push_char(&mut s, v[i]);
        i = i + 1;
        assert(v@.take(i as int) == v@.take((i - 1) as int).push(v@[i - 1]));
    }
    assert(v@.take(v.len() as int) == v@);
    s
}

/// Appends all characters of `src` to `dst`.
pub fn append_chars(dst: &mut Vec<char>, src: &Vec<char>)
    ensures
        final(dst)@ == old(dst)@ + src@,
{
    let mut i: usize = 0;
    while i < src.len()
        invariant
            i <= src.len(),
            dst@ == old(dst)@ + src@.take(i as int),
        decreases src.len() - i,
    {
        dst.push(src[i]);
        i = i + 1;
        assert(src@.take(i as int) == src@.take((i - 1) as int).push(src@[i - 1]));
    }
    assert(src@.take(src.len() as int) == src@);
}

/// Appends all characters of a string slice to `dst`.
pub fn append_str(dst: &mut Vec<char>, src: &str)
    ensures
        final(dst)@ == old(dst)@ + src@,
{
    let v = chars_of(src);
    append_chars(dst, &v);
}

/// The characters `v[from..to]`.
pub fn sub_chars(v: &Vec<char>, from: usize, to: usize) -> (r: Vec<char>)
    requires
        from <= to <= v.len(),
    ensures
        r@ == v@.subrange(from as int, to as int),
{
    let mut r: Vec<char> = Vec::new();
    let mut i: usize = from;
    while i < to
        invariant
            from <= i <= to <= v.len(),
            r@ == v@.subrange(from as int, i as int),
        decreases to - i,
    {
        r.push(v[i]);
        i = i + 1;
        assert(v@.subrange(from as int, i as int) == v@.subrange(from as int, (i - 1) as int).push(
            v@[i - 1],
        ));
    }
    r
}

/// Whether two character vectors are equal.
pub fn chars_eq(a: &Vec<char>, b: &Vec<char>) -> (r: bool)
    ensures
        r == (a@ == b@),
{
    if a.len() != b.len() {
        return false;
    }
    let mut i: usize = 0;
    while i < a.len()
        invariant
            i <= a.len() == b.len(),
            forall|j: int| 0 <= j < i ==> a@[j] == b@[j],
        decreases a.len() - i,
    {
        if a[i] != b[i] {
            return false;
        }
        i = i + 1;
    }
    assert(a@ =~= b@);
    true
}

/// Whether a character vector equals a string slice.
pub fn chars_eq_str(a: &Vec<char>, b: &str) -> (r: bool)
    ensures
        r == (a@ == b@),
{
    let bv = chars_of(b);
    chars_eq(a, &bv)
}

// ---------------------------------------------------------------------------
// Prefixes
// ---------------------------------------------------------------------------

/// `s` begins with `p`.
pub open spec fn has_prefix(s: Seq<char>, p: Seq<char>) -> bool {
    p.len() <= s.len() && s.take(p.len() as int) == p
}

/// Whether `s` begins with `p`.
pub fn starts_with(s: &Vec<char>, p: &Vec<char>) -> (r: bool)
    ensures
        r == has_prefix(s@, p@),
{
    if p.len() > s.len() {
        return false;
    }
    let mut i: usize = 0;
    while i < p.len()
        invariant
            i <= p.len() <= s.len(),
            forall|j: int| 0 <= j < i ==> s@[j] == p@[j],
        decreases p.len() - i,
    {
        if s[i] != p[i] {
            assert(s@.take(p.len() as int)[i as int] != p@[i as int]);
            return false;
        }
        i = i + 1;
    }
    assert(s@.take(p.len() as int) =~= p@);
    true
}

/// `p` occurs somewhere in `s`.
pub open spec fn has_infix(s: Seq<char>, p: Seq<char>) -> bool {
    exists|i: int| 0 <= i <= s.len() - p.len() && #[trigger] s.subrange(i, i + p.len()) == p
}

/// `s` ends with `p`.
pub open spec fn has_suffix(s: Seq<char>, p: Seq<char>) -> bool {
    p.len() <= s.len() && s.skip(s.len() - p.len()) == p
}

/// Whether `p` occurs in `s` (`str::contains`).
pub fn contains_chars(s: &Vec<char>, p: &Vec<char>) -> (r: bool)
    ensures
        r == has_infix(s@, p@),
{
    if p.len() > s.len() {
        return false;
    }
    let mut i: usize = 0;
    while i <= s.len() - p.len()
        invariant
            p.len() <= s.len(),
            i <= s.len() - p.len() + 1,
            forall|k: int| 0 <= k < i ==> #[trigger] s@.subrange(k, k + p@.len()) != p@,
        decreases s.len() - p.len() + 1 - i,
    {
        let mut j: usize = 0;
        let mut same = true;
        while j < p.len() && same
            invariant
                i + p.len() <= s.len(),
                j <= p.len(),
                same == (forall|k: int| 0 <= k < j ==> s@[i + k] == p@[k]),
            decreases p.len() - j,
        {
            if s[i + j] != p[j] {
                same = false;
            }
            j = j + 1;
        }
        if same {
            assert(s@.subrange(i as int, i + p@.len()) =~= p@);
            return true;
        } else {
            assert(s@.subrange(i as int, i + p@.len()) != p@) by {
                let k = choose|k: int| 0 <= k < j && s@[i + k] != p@[k];
                assert(s@.subrange(i as int, i + p@.len())[k] == s@[i + k]);
            }
        }
        i = i + 1;
    }
    false
}

/// Whether `s` ends with `p` (`str::ends_with`).
pub fn ends_with_chars(s: &Vec<char>, p: &Vec<char>) -> (r: bool)
    ensures
        r == has_suffix(s@, p@),
{
    if p.len() > s.len() {
        return false;
    }
    let tail = sub_chars(s, s.len() - p.len(), s.len());
    assert(tail@ =~= s@.skip(s@.len() - p@.len()));
    chars_eq(&tail, p)
}

// ---------------------------------------------------------------------------
// Whitespace
// ---------------------------------------------------------------------------

/// The Unicode `White_Space` property, which is what `char::is_whitespace`
/// and the `trim` family of `str` use.
pub open spec fn is_ws(c: char) -> bool {
    let n = c as u32;
    ||| 9 <= n <= 13
    ||| n == 32
    ||| n == 0x85
    ||| n == 0xA0
    ||| n == 0x1680
    ||| 0x2000 <= n <= 0x200A
    ||| n == 0x2028
    ||| n == 0x2029
    ||| n == 0x202F
    ||| n == 0x205F
    ||| n == 0x3000
}

/// Whether `c` is a whitespace character.
pub fn is_whitespace(c: char) -> (r: bool)
    ensures
        r == is_ws(c),
{
    let n = c as u32;
    (9 <= n && n <= 13) || n == 32 || n == 0x85 || n == 0xA0 || n == 0x1680 || (0x2000 <= n && n
        <= 0x200A) || n == 0x2028 || n == 0x2029 || n == 0x202F || n == 0x205F || n == 0x3000
}

/// `s` with its leading whitespace removed.
pub open spec fn trim_start(s: Seq<char>) -> Seq<char>
    decreases s.len(),
{
    if s.len() > 0 && is_ws(s[0]) {
        trim_start(s.drop_first())
    } else {
        s
    }
}

/// `s` with its trailing whitespace removed.
pub open spec fn trim_end(s: Seq<char>) -> Seq<char>
    decreases s.len(),
{
    if s.len() > 0 && is_ws(s.last()) {
        trim_end(s.drop_last())
    } else {
        s
    }
}

/// `s` with leading and trailing whitespace removed (`str::trim`).
pub open spec fn trim(s: Seq<char>) -> Seq<char> {
    trim_end(trim_start(s))
}

proof fn lemma_trim_start_at(s: Seq<char>, a: int)
    requires
        0 <= a <= s.len(),
        forall|j: int| 0 <= j < a ==> is_ws(#[trigger] s[j]),
        a == s.len() || !is_ws(s[a]),
    ensures
        trim_start(s) == s.subrange(a, s.len() as int),
    decreases a,
{
    if a > 0 {
        assert forall|j: int| 0 <= j < a - 1 implies is_ws(#[trigger] s.drop_first()[j]) by {
            assert(s.drop_first()[j] == s[j + 1]);
        }
        if a < s.len() {
            assert(s.drop_first()[a - 1] == s[a]);
        }
        lemma_trim_start_at(s.drop_first(), a - 1);
        assert(s.drop_first().subrange(a - 1, s.len() - 1) =~= s.subrange(a, s.len() as int));
    } else {
        assert(s.subrange(0, s.len() as int) =~= s);
    }
}

/// `trim_start(s)` is what follows the run of whitespace that begins `s`.
pub proof fn lemma_trim_start_shape(s: Seq<char>)
    ensures
        trim_start(s).len() <= s.len(),
        trim_start(s) == s.skip(s.len() - trim_start(s).len()),
        forall|j: int| 0 <= j < s.len() - trim_start(s).len() ==> is_ws(#[trigger] s[j]),
        trim_start(s).len() > 0 ==> !is_ws(trim_start(s)[0]),
    decreases s.len(),
{
    if s.len() > 0 && is_ws(s[0]) {
        lemma_trim_start_shape(s.drop_first());
        let t = trim_start(s.drop_first());
        assert(s.drop_first().skip(s.len() - 1 - t.len()) =~= s.skip(s.len() - t.len()));
        assert forall|j: int| 0 <= j < s.len() - t.len() implies is_ws(#[trigger] s[j]) by {
            if j > 0 {
                assert(s[j] == s.drop_first()[j - 1]);
            }
        }
    } else {
        assert(s.skip(0) =~= s);
    }
}

/// Whitespace followed by a text that does not begin with whitespace trims
/// to that text.
pub proof fn lemma_trim_start_indented(w: Seq<char>, x: Seq<char>)
    requires
        forall|j: int| 0 <= j < w.len() ==> is_ws(#[trigger] w[j]),
        x.len() > 0 ==> !is_ws(x[0]),
    ensures
        trim_start(w + x) == x,
{
    let s = w + x;
    assert forall|j: int| 0 <= j < w.len() implies is_ws(#[trigger] s[j]) by {
        assert(s[j] == w[j]);
    }
    if x.len() > 0 {
        assert(s[w.len() as int] == x[0]);
    }
    lemma_trim_start_at(s, w.len() as int);
    assert(s.subrange(w.len() as int, s.len() as int) =~= x);
}

proof fn lemma_trim_end_at(s: Seq<char>, b: int)
    requires
        0 <= b <= s.len(),
        forall|j: int| b <= j < s.len() ==> is_ws(#[trigger] s[j]),
        b == 0 || !is_ws(s[b - 1]),
    ensures
        trim_end(s) == s.subrange(0, b),
    decreases s.len() - b,
{
    if b < s.len() {
        assert forall|j: int| b <= j < s.len() - 1 implies is_ws(#[trigger] s.drop_last()[j]) by {
            assert(s.drop_last()[j] == s[j]);
        }
        if b > 0 {
            assert(s.drop_last()[b - 1] == s[b - 1]);
        }
        assert(is_ws(s[s.len() - 1]));
        lemma_trim_end_at(s.drop_last(), b);
        assert(s.drop_last().subrange(0, b) =~= s.subrange(0, b));
    } else {
        assert(s.subrange(0, b) =~= s);
    }
}

/// `trim_end(s)` is what precedes the run of whitespace that ends `s`.
pub proof fn lemma_trim_end_shape(s: Seq<char>)
    ensures
        trim_end(s).len() <= s.len(),
        trim_end(s) == s.take(trim_end(s).len() as int),
        forall|j: int| trim_end(s).len() <= j < s.len() ==> is_ws(#[trigger] s[j]),
        trim_end(s).len() > 0 ==> !is_ws(trim_end(s).last()),
    decreases s.len(),
{
    if s.len() > 0 && is_ws(s.last()) {
        lemma_trim_end_shape(s.drop_last());
        let t = trim_end(s.drop_last());
        assert(s.drop_last().take(t.len() as int) =~= s.take(t.len() as int));
        assert forall|j: int| t.len() <= j < s.len() implies is_ws(#[trigger] s[j]) by {
            if j < s.len() - 1 {
                assert(s[j] == s.drop_last()[j]);
            }
        }
    } else {
        assert(s.take(s.len() as int) =~= s);
    }
}

/// Trimming the start again changes nothing; nor does trimming the end
/// again.
pub proof fn lemma_trim_idempotent(s: Seq<char>)
    ensures
        trim_start(trim_start(s)) == trim_start(s),
        trim_end(trim_end(s)) == trim_end(s),
{
    lemma_trim_start_shape(s);
    lemma_trim_end_shape(s);
}

/// Trimming the start and the end can be done in either order.
pub proof fn lemma_trim_commute(v: Seq<char>)
    ensures
        trim_start(trim_end(v)) == trim_end(trim_start(v)),
{
    lemma_trim_start_shape(v);
    lemma_trim_end_shape(v);
    let t = trim_start(v);
    let e = trim_end(v);
    let a = v.len() - t.len();
    let b = e.len() as int;
    if t.len() == 0 {
        if e.len() > 0 {
            assert(e.last() == v[b - 1]);
        }
        assert(e =~= Seq::<char>::empty());
    } else {
        assert(t[0] == v[a]);
        if b <= a {
            assert(is_ws(v[a]));
        }
        if b > 0 {
            assert(e.last() == v[b - 1]);
        }
        let vb = v.take(b);
        assert forall|j: int| 0 <= j < a implies is_ws(#[trigger] vb[j]) by {
            assert(vb[j] == v[j]);
        }
        assert(vb[a] == v[a]);
        lemma_trim_start_at(vb, a);
        let va = v.skip(a);
        assert forall|j: int| b - a <= j < va.len() implies is_ws(#[trigger] va[j]) by {
            assert(va[j] == v[a + j]);
        }
        assert(va[b - a - 1] == v[b - 1]);
        lemma_trim_end_at(va, b - a);
        assert(vb.subrange(a, vb.len() as int) =~= va.subrange(0, b - a));
    }
}

/// Leading whitespace before a text that does not begin with whitespace is
/// all that trimming the start removes.
pub proof fn lemma_trim_start_append(a: Seq<char>, b: Seq<char>)
    requires
        b.len() > 0,
        !is_ws(b[0]),
    ensures
        trim_start(a + b) == trim_start(a) + b,
    decreases a.len(),
{
    if a.len() == 0 {
        assert(a + b =~= b);
    } else if is_ws(a[0]) {
        assert((a + b).drop_first() =~= a.drop_first() + b);
        lemma_trim_start_append(a.drop_first(), b);
    } else {
        assert((a + b)[0] == a[0]);
    }
}

/// Trailing whitespace after a text that does not end with whitespace is
/// all that trimming the end removes.
pub proof fn lemma_trim_end_prepend(a: Seq<char>, b: Seq<char>)
    requires
        a.len() > 0,
        !is_ws(a.last()),
    ensures
        trim_end(a + b) == a + trim_end(b),
    decreases b.len(),
{
    if b.len() == 0 {
        assert(a + b =~= a);
    } else if is_ws(b.last()) {
        assert((a + b).drop_last() =~= a + b.drop_last());
        lemma_trim_end_prepend(a, b.drop_last());
    } else {
        assert((a + b).last() == b.last());
    }
}

/// `v` without leading and trailing whitespace.
pub fn trim_chars(v: &Vec<char>) -> (r: Vec<char>)
    ensures
        r@ == trim(v@),
{
    let mut a: usize = 0;
    while a < v.len() && is_whitespace(v[a])
        invariant
            a <= v.len(),
            forall|j: int| 0 <= j < a ==> is_ws(#[trigger] v@[j]),
        decreases v.len() - a,
    {
        a = a + 1;
    }
    proof {
        lemma_trim_start_at(v@, a as int);
    }
    let mut b: usize = v.len();
    while b > a && is_whitespace(v[b - 1])
        invariant
            a <= b <= v.len(),
            forall|j: int| b <= j < v.len() ==> is_ws(#[trigger] v@[j]),
        decreases b,
    {
        b = b - 1;
    }
    let ghost t = v@.subrange(a as int, v.len() as int);
    proof {
        assert forall|j: int| b - a <= j < t.len() implies is_ws(#[trigger] t[j]) by {
            assert(t[j] == v@[a + j]);
        }
        if b > a {
            assert(t[b - a - 1] == v@[b - 1]);
        }
        lemma_trim_end_at(t, b - a);
        assert(t.subrange(0, b - a) =~= v@.subrange(a as int, b as int));
    }
    sub_chars(v, a, b)
}

/// The number of leading whitespace characters of `v`.
pub fn leading_ws_len(v: &Vec<char>) -> (a: usize)
    ensures
        a <= v.len(),
        trim_start(v@) == v@.subrange(a as int, v.len() as int),
{
    let mut a: usize = 0;
    while a < v.len() && is_whitespace(v[a])
        invariant
            a <= v.len(),
            forall|j: int| 0 <= j < a ==> is_ws(#[trigger] v@[j]),
        decreases v.len() - a,
    {
        a = a + 1;
    }
    proof {
        lemma_trim_start_at(v@, a as int);
    }
    a
}

/// `s` without leading and trailing whitespace (`str::trim`).
pub fn trim_str(s: &str) -> (r: Vec<char>)
    ensures
        r@ == trim(s@),
{
    let v = chars_of(s);
    trim_chars(&v)
}


// ---------------------------------------------------------------------------
// Splitting and joining
// ---------------------------------------------------------------------------

/// The views of a sequence of character vectors.
pub open spec fn views(v: Seq<Vec<char>>) -> Seq<Seq<char>> {
    v.map_values(|x: Vec<char>| x@)
}

/// The pieces of `s` between occurrences of `c` (`str::split` with a
/// character pattern): always at least one piece.
pub open spec fn split(s: Seq<char>, c: char) -> Seq<Seq<char>>
    decreases s.len(),
{
    if s.len() == 0 {
        seq![Seq::<char>::empty()]
    } else {
        let init = split(s.drop_last(), c);
        if s.last() == c {
            init.push(Seq::<char>::empty())
        } else {
            init.update(init.len() - 1, init.last().push(s.last()))
        }
    }
}

pub proof fn lemma_split_len(s: Seq<char>, c: char)
    ensures
        split(s, c).len() >= 1,
        split(s, c).len() == 1 <==> !s.contains(c),
    decreases s.len(),
{
    if s.len() > 0 {
        lemma_split_len(s.drop_last(), c);
        if s.drop_last().contains(c) {
            let k = choose|k: int| 0 <= k < s.drop_last().len() && s.drop_last()[k] == c;
            assert(s[k] == c);
        }
        if s.contains(c) && s.last() != c {
            let k = choose|k: int| 0 <= k < s.len() && s[k] == c;
            assert(s.drop_last()[k] == c);
        }
        if s.last() == c {
            assert(s[s.len() - 1] == c);
        }
    }
}

/// Splits `v` at every occurrence of `c`.
pub fn split_chars(v: &Vec<char>, c: char) -> (r: Vec<Vec<char>>)
    ensures
        views(r@) == split(v@, c),
{
    let mut fields: Vec<Vec<char>> = Vec::new();
    let mut cur: Vec<char> = Vec::new();
    let mut i: usize = 0;
    assert(v@.take(0) =~= Seq::<char>::empty());
    while i < v.len()
        invariant
            i <= v.len(),
            views(fields@).push(cur@) == split(v@.take(i as int), c),
        decreases v.len() - i,
    {
        let ghost before = v@.take(i as int);
        proof {
            lemma_split_len(before, c);
        }
        assert(v@.take(i + 1).drop_last() == before);
        if v[i] == c {
            fields.push(cur);
            cur = Vec::new();
            assert(views(fields@).push(cur@) =~= split(before, c).push(Seq::<char>::empty()));
        } else {
            cur.push(v[i]);
            assert(views(fields@).push(cur@) =~= split(before, c).update(
                split(before, c).len() - 1,
                split(before, c).last().push(v@[i as int]),
            ));
        }
        i = i + 1;
    }
    assert(v@.take(v.len() as int) == v@);
    fields.push(cur);
    assert(views(fields@) =~= split(v@, c));
    fields
}

/// The pieces `fs` with `sep` between consecutive ones (`[..].join(sep)`).
pub open spec fn join(fs: Seq<Seq<char>>, sep: Seq<char>) -> Seq<char>
    decreases fs.len(),
{
    if fs.len() == 0 {
        Seq::<char>::empty()
    } else if fs.len() == 1 {
        fs[0]
    } else {
        join(fs.drop_last(), sep) + sep + fs.last()
    }
}

/// Joins `fs` with `sep` between consecutive pieces.
pub fn join_chars(fs: &Vec<Vec<char>>, sep: &Vec<char>) -> (r: Vec<char>)
    ensures
        r@ == join(views(fs@), sep@),
{
    let mut r: Vec<char> = Vec::new();
    let mut i: usize = 0;
    while i < fs.len()
        invariant
            i <= fs.len(),
            r@ == join(views(fs@).take(i as int), sep@),
        decreases fs.len() - i,
    {
        let ghost prev = views(fs@).take(i as int);
        if i > 0 {
            append_chars(&mut r, sep);
        }
        append_chars(&mut r, &fs[i]);
        i = i + 1;
        assert(views(fs@).take(i as int).drop_last() =~= prev);
        if i == 1 {
            assert(r@ =~= join(views(fs@).take(i as int), sep@));
        }
    }
    assert(views(fs@).take(fs.len() as int) =~= views(fs@));
    r
}

pub proof fn lemma_split_sep_then(x: Seq<char>, c: char, f: Seq<char>)
    requires
        !f.contains(c),
    ensures
        split(x + seq![c] + f, c) == split(x, c).push(f),
    decreases f.len(),
{
    lemma_split_len(x, c);
    if f.len() == 0 {
        assert((x + seq![c] + f).drop_last() =~= x);
        assert(x + seq![c] + f =~= x.push(c));
        assert(f =~= Seq::<char>::empty());
    } else {
        let g = f.drop_last();
        assert(!g.contains(c)) by {
            if g.contains(c) {
                let k = choose|k: int| 0 <= k < g.len() && g[k] == c;
                assert(f[k] == c);
            }
        }
        lemma_split_sep_then(x, c, g);
        assert((x + seq![c] + f).drop_last() =~= x + seq![c] + g);
        assert(f.last() != c) by {
            assert(f[f.len() - 1] == f.last());
        }
        assert(g.push(f.last()) =~= f);
        let s = x + seq![c] + f;
        assert(s.last() == f.last());
        let init = split(x, c).push(g);
        assert(init.update(init.len() - 1, init.last().push(f.last())) =~= split(x, c).push(f));
    }
}

pub proof fn lemma_split_single(f: Seq<char>, c: char)
    requires
        !f.contains(c),
    ensures
        split(f, c) == seq![f],
    decreases f.len(),
{
    if f.len() > 0 {
        let g = f.drop_last();
        assert(!g.contains(c)) by {
            if g.contains(c) {
                let k = choose|k: int| 0 <= k < g.len() && g[k] == c;
                assert(f[k] == c);
            }
        }
        lemma_split_single(g, c);
        assert(f[f.len() - 1] == f.last());
        assert(g.push(f.last()) =~= f);
        assert(seq![g].update(0, g.push(f.last())) =~= seq![f]);
    } else {
        assert(f =~= Seq::<char>::empty());
    }
}

/// Splitting at `c` undoes joining with `c`, when no piece holds `c`.
pub proof fn lemma_split_join(fs: Seq<Seq<char>>, c: char)
    requires
        fs.len() >= 1,
        forall|i: int| 0 <= i < fs.len() ==> !(#[trigger] fs[i]).contains(c),
    ensures
        split(join(fs, seq![c]), c) == fs,
    decreases fs.len(),
{
    if fs.len() == 1 {
        lemma_split_single(fs[0], c);
        assert(seq![fs[0]] =~= fs);
    } else {
        let init = fs.drop_last();
        assert forall|i: int| 0 <= i < init.len() implies !(#[trigger] init[i]).contains(c) by {
            assert(init[i] == fs[i]);
        }
        lemma_split_join(init, c);
        assert(!fs.last().contains(c)) by {
            assert(fs[fs.len() - 1] == fs.last());
        }
        lemma_split_sep_then(join(init, seq![c]), c, fs.last());
        assert(init.push(fs.last()) =~= fs);
    }
}

/// A first piece without the separator, then the separator: splitting gives
/// that piece, then the pieces of the rest.
pub proof fn lemma_split_prefix(a: Seq<char>, c: char, b: Seq<char>)
    requires
        !a.contains(c),
    ensures
        split(a + seq![c] + b, c) == seq![a] + split(b, c),
    decreases b.len(),
{
    let s = a + seq![c] + b;
    if b.len() == 0 {
        assert(s.drop_last() =~= a);
        assert(s.last() == c);
        lemma_split_single(a, c);
        assert(seq![a] + split(b, c) =~= seq![a].push(Seq::<char>::empty()));
    } else {
        assert(s.drop_last() =~= a + seq![c] + b.drop_last());
        assert(s.last() == b.last());
        lemma_split_prefix(a, c, b.drop_last());
        let p = split(b.drop_last(), c);
        lemma_split_len(b.drop_last(), c);
        if b.last() == c {
            assert((seq![a] + p).push(Seq::<char>::empty()) =~= seq![a] + p.push(
                Seq::<char>::empty(),
            ));
        } else {
            let q = seq![a] + p;
            assert(q.last() == p.last());
            assert(q.update(q.len() - 1, q.last().push(b.last())) =~= seq![a] + p.update(
                p.len() - 1,
                p.last().push(b.last()),
            ));
        }
    }
}

/// Joining the pieces of a split with the separator gives the text back.
pub proof fn lemma_join_split(s: Seq<char>, c: char)
    ensures
        join(split(s, c), seq![c]) == s,
    decreases s.len(),
{
    if s.len() > 0 {
        let p = split(s.drop_last(), c);
        lemma_join_split(s.drop_last(), c);
        lemma_split_len(s.drop_last(), c);
        if s.last() == c {
            let q = p.push(Seq::<char>::empty());
            assert(q.drop_last() =~= p);
            assert(join(q, seq![c]) =~= s);
        } else {
            let q = p.update(p.len() - 1, p.last().push(s.last()));
            if p.len() == 1 {
                assert(p[0] == p.last());
                assert(join(q, seq![c]) =~= s);
            } else {
                assert(q.drop_last() =~= p.drop_last());
                assert(q.last() == p.last().push(s.last()));
                let head = join(p.drop_last(), seq![c]);
                assert(join(p, seq![c]) == head + seq![c] + p.last());
                assert(join(q, seq![c]) == head + seq![c] + p.last().push(s.last()));
                assert(s =~= s.drop_last().push(s.last()));
                assert(join(q, seq![c]) =~= s);
            }
        }
    }
}

/// Drops one trailing carriage return.
pub open spec fn strip_cr(l: Seq<char>) -> Seq<char> {
    if l.len() > 0 && l.last() == '\r' {
        l.drop_last()
    } else {
        l
    }
}

/// The lines of `s` as `str::lines` yields them: split at `\n`, a `\r`
/// right before a `\n` removed, and no empty line after a final `\n`.
pub open spec fn lines(s: Seq<char>) -> Seq<Seq<char>> {
    let parts = split(s, '\n');
    let ended = parts.drop_last().map_values(|l: Seq<char>| strip_cr(l));
    if s.len() == 0 || s.last() == '\n' {
        ended
    } else {
        ended.push(parts.last())
    }
}

/// No piece of a split holds the separator.
pub proof fn lemma_split_pieces(s: Seq<char>, c: char)
    ensures
        forall|k: int| 0 <= k < split(s, c).len() ==> !(#[trigger] split(s, c)[k]).contains(c),
    decreases s.len(),
{
    lemma_split_len(s, c);
    if s.len() > 0 {
        let init = split(s.drop_last(), c);
        lemma_split_pieces(s.drop_last(), c);
        lemma_split_len(s.drop_last(), c);
        let parts = split(s, c);
        assert forall|k: int| 0 <= k < parts.len() implies !(#[trigger] parts[k]).contains(c) by {
            if k < init.len() - 1 {
                assert(parts[k] == init[k]);
            } else if s.last() == c {
                if k < init.len() {
                    assert(parts[k] == init[k]);
                } else {
                    assert(parts[k] =~= Seq::<char>::empty());
                }
            } else {
                let piece = init.last().push(s.last());
                assert(parts[k] == piece);
                if piece.contains(c) {
                    let j = choose|j: int| 0 <= j < piece.len() && piece[j] == c;
                    if j < init.last().len() {
                        assert(init[init.len() - 1] == init.last());
                        assert(init.last()[j] == c);
                    }
                }
            }
        }
    }
}

/// A line holds no line feed; a text that is not empty has a line, and its
/// last line is not empty when the text does not end with a line feed.
pub proof fn lemma_lines_pieces(s: Seq<char>)
    ensures
        forall|k: int| 0 <= k < lines(s).len() ==> !(#[trigger] lines(s)[k]).contains('\n'),
        s.len() > 0 ==> lines(s).len() >= 1,
        s.len() > 0 && s.last() != '\n' ==> lines(s).last().len() > 0,
{
    let parts = split(s, '\n');
    lemma_split_pieces(s, '\n');
    lemma_split_len(s, '\n');
    let ls = lines(s);
    assert forall|k: int| 0 <= k < ls.len() implies !(#[trigger] ls[k]).contains('\n') by {
        if k < parts.len() - 1 {
            let l = parts[k];
            assert(ls[k] == strip_cr(l));
            if strip_cr(l).contains('\n') {
                let j = choose|j: int| 0 <= j < strip_cr(l).len() && strip_cr(l)[j] == '\n';
                assert(l[j] == '\n');
            }
        } else {
            assert(ls[k] == parts[parts.len() - 1]);
        }
    }
    if s.len() > 0 && s.last() == '\n' {
        assert(s[s.len() - 1] == '\n');
        assert(s.contains('\n'));
    }
    if s.len() > 0 && s.last() != '\n' {
        let init = split(s.drop_last(), '\n');
        lemma_split_len(s.drop_last(), '\n');
        assert(parts.last() == init.last().push(s.last()));
    }
}

/// A text that ends with a line feed.
pub open spec fn ends_with_newline(s: Seq<char>) -> bool {
    s.len() > 0 && s.last() == '\n'
}

/// No piece of a split holds a character that the text does not hold.
pub proof fn lemma_split_pieces_without(s: Seq<char>, c: char, d: char)
    requires
        d == c || !s.contains(d),
    ensures
        forall|i: int| 0 <= i < split(s, c).len() ==> !(#[trigger] split(s, c)[i]).contains(d),
    decreases s.len(),
{
    lemma_split_len(s, c);
    if s.len() > 0 {
        let init = s.drop_last();
        assert(d == c || !init.contains(d)) by {
            if d != c && init.contains(d) {
                let k = choose|k: int| 0 <= k < init.len() && init[k] == d;
                assert(s[k] == d);
            }
        }
        lemma_split_pieces_without(init, c, d);
        lemma_split_len(init, c);
        let pieces = split(init, c);
        if s.last() != c {
            assert(s.last() != d) by {
                if d != c {
                    assert(s[s.len() - 1] == s.last());
                }
            }
            let last = pieces.last().push(s.last());
            assert(!last.contains(d)) by {
                if last.contains(d) {
                    let k = choose|k: int| 0 <= k < last.len() && last[k] == d;
                    if k < last.len() - 1 {
                        assert(pieces.last()[k] == d);
                        assert(pieces[pieces.len() - 1] == pieces.last());
                    }
                }
            }
            assert forall|i: int| 0 <= i < split(s, c).len() implies !(#[trigger] split(s,
                c)[i]).contains(d) by {
                if i < pieces.len() - 1 {
                    assert(split(s, c)[i] == pieces[i]);
                }
            }
        } else {
            assert forall|i: int| 0 <= i < split(s, c).len() implies !(#[trigger] split(s,
                c)[i]).contains(d) by {
                if i < pieces.len() {
                    assert(split(s, c)[i] == pieces[i]);
                } else {
                    assert(split(s, c)[i] =~= Seq::<char>::empty());
                }
            }
        }
    }
}

/// No line of a text holds a character that the text does not hold.
pub proof fn lemma_lines_without(s: Seq<char>, d: char)
    requires
        !s.contains(d),
    ensures
        forall|k: int| 0 <= k < lines(s).len() ==> !(#[trigger] lines(s)[k]).contains(d),
{
    let parts = split(s, '\n');
    lemma_split_pieces_without(s, '\n', d);
    lemma_split_len(s, '\n');
    let ls = lines(s);
    assert forall|k: int| 0 <= k < ls.len() implies !(#[trigger] ls[k]).contains(d) by {
        if k < parts.len() - 1 {
            let l = parts[k];
            assert(ls[k] == strip_cr(l));
            if strip_cr(l).contains(d) {
                let j = choose|j: int| 0 <= j < strip_cr(l).len() && strip_cr(l)[j] == d;
                assert(l[j] == d);
            }
        } else {
            assert(ls[k] == parts[parts.len() - 1]);
        }
    }
}

/// A line that ends with a carriage return.
pub open spec fn ends_with_cr(l: Seq<char>) -> bool {
    l.len() > 0 && l.last() == '\r'
}

/// The text of `ls` joined with line feeds, with a final line feed when
/// `ended`.
pub open spec fn line_text(ls: Seq<Seq<char>>, ended: bool) -> Seq<char> {
    if ended {
        join(ls, "\n"@) + "\n"@
    } else {
        join(ls, "\n"@)
    }
}

proof fn lemma_join_last(fs: Seq<Seq<char>>, sep: Seq<char>)
    requires
        fs.len() >= 1,
        fs.last().len() > 0,
    ensures
        join(fs, sep).len() > 0,
        join(fs, sep).last() == fs.last().last(),
{
    if fs.len() == 1 {
        assert(fs[0] == fs.last());
    }
}

/// Reading the lines of a joined text gives back the lines, when none holds
/// a line feed, none that a line feed ends ends with a carriage return, and
/// the text can tell where the last line ends.
pub proof fn lemma_lines_of_line_text(ls: Seq<Seq<char>>, ended: bool)
    requires
        forall|k: int| 0 <= k < ls.len() ==> !(#[trigger] ls[k]).contains('\n'),
        forall|k: int| 0 <= k < ls.len() && (ended || k < ls.len() - 1) ==> !ends_with_cr(#[trigger] ls[k]),
        ended ==> ls.len() >= 1,
        !ended && ls.len() >= 1 ==> ls.last().len() > 0,
    ensures
        lines(line_text(ls, ended)) == ls,
        ends_with_newline(line_text(ls, ended)) == ended,
{
    reveal_strlit("\n");
    assert("\n"@ =~= seq!['\n']);
    let text = line_text(ls, ended);
    if ended {
        let fs = ls.push(Seq::<char>::empty());
        assert(fs.drop_last() =~= ls);
        assert(join(fs, seq!['\n']) =~= join(ls, seq!['\n']) + seq!['\n'] + Seq::<char>::empty());
        assert(text =~= join(fs, seq!['\n']));
        assert forall|k: int| 0 <= k < fs.len() implies !(#[trigger] fs[k]).contains('\n') by {
            if k < ls.len() {
                assert(fs[k] == ls[k]);
            }
        }
        lemma_split_join(fs, '\n');
        assert(text.last() == '\n');
        let ended_lines = fs.drop_last().map_values(|l: Seq<char>| strip_cr(l));
        assert(ended_lines =~= ls);
    } else if ls.len() == 0 {
        assert(text =~= Seq::<char>::empty());
        assert(lines(text) =~= ls);
    } else {
        lemma_split_join(ls, '\n');
        lemma_join_last(ls, seq!['\n']);
        assert(ls[ls.len() - 1] == ls.last());
        assert(text.last() != '\n') by {
            let l = ls.last();
            assert(l[l.len() - 1] == l.last());
        }
        let ended_lines = ls.drop_last().map_values(|l: Seq<char>| strip_cr(l));
        assert(ended_lines.push(ls.last()) =~= ls);
    }
}

/// The lines of `v` (see [`lines`]).
pub fn lines_of(v: &Vec<char>) -> (r: Vec<Vec<char>>)
    ensures
        views(r@) == lines(v@),
{
    let parts = split_chars(v, '\n');
    proof {
        lemma_split_len(v@, '\n');
    }
    let n = parts.len();
    let mut r: Vec<Vec<char>> = Vec::new();
    let mut i: usize = 0;
    while i + 1 < n
        invariant
            n == parts.len() >= 1,
            i < n,
            views(parts@) == split(v@, '\n'),
            views(r@) == split(v@, '\n').take(i as int).map_values(|l: Seq<char>| strip_cr(l)),
        decreases n - i,
    {
        let p = &parts[i];
        let line = if p.len() > 0 && p[p.len() - 1] == '\r' {
            sub_chars(p, 0, p.len() - 1)
        } else {
            sub_chars(p, 0, p.len())
        };
        assert(p@.subrange(0, p@.len() as int) =~= p@);
        assert(p@.len() > 0 ==> p@.subrange(0, p@.len() - 1) =~= p@.drop_last());
        assert(views(parts@)[i as int] == p@);
        assert(line@ == strip_cr(p@));
        let ghost before = views(r@);
        r.push(line);
        assert(views(r@) =~= before.push(strip_cr(p@)));
        i = i + 1;
        assert(views(r@) =~= split(v@, '\n').take(i as int).map_values(|l: Seq<char>| strip_cr(l)));
    }
    assert(split(v@, '\n').take(i as int) =~= split(v@, '\n').drop_last());
    if v.len() > 0 && v[v.len() - 1] != '\n' {
        let last = sub_chars(&parts[n - 1], 0, parts[n - 1].len());
        assert(views(parts@)[n - 1] == parts@[n - 1]@);
        assert(parts@[n - 1]@.subrange(0, parts@[n - 1]@.len() as int) =~= parts@[n - 1]@);
        r.push(last);
        assert(views(r@) =~= lines(v@));
    }
    r
}

// ---------------------------------------------------------------------------
// Digits
// ---------------------------------------------------------------------------

/// The character of digit `d` (upper-case letters above nine).
pub open spec fn digit_char(d: nat) -> char {
    if d < 10 {
        (d + 48) as char
    } else {
        (d + 55) as char
    }
}

/// The value of a decimal or hexadecimal digit character (either case);
/// any other character has a value of at least sixteen.
pub open spec fn digit_value(c: char) -> nat {
    let n = c as u32;
    if 48 <= n <= 57 {
        (n - 48) as nat
    } else if 65 <= n <= 70 {
        (n - 55) as nat
    } else if 97 <= n <= 102 {
        (n - 87) as nat
    } else {
        99
    }
}

/// Decimal representation of `n`, without leading zeros.
pub open spec fn dec_digits(n: nat) -> Seq<char>
    decreases n,
{
    if n < 10 {
        seq![digit_char(n)]
    } else {
        dec_digits(n / 10).push(digit_char(n % 10))
    }
}

/// Upper-case hexadecimal representation of `n`, without leading zeros.
pub open spec fn hex_digits(n: nat) -> Seq<char>
    decreases n,
{
    if n < 16 {
        seq![digit_char(n)]
    } else {
        hex_digits(n / 16).push(digit_char(n % 16))
    }
}

/// Decimal representation of a signed number.
pub open spec fn signed_dec(v: int) -> Seq<char> {
    if v < 0 {
        seq!['-'] + dec_digits((-v) as nat)
    } else {
        dec_digits(v as nat)
    }
}

/// The value of the digit string `s` in base `radix`.
pub open spec fn digits_value(s: Seq<char>, radix: nat) -> nat
    decreases s.len(),
{
    if s.len() == 0 {
        0
    } else {
        digits_value(s.drop_last(), radix) * radix + digit_value(s.last())
    }
}

/// Every character of `s` is a digit in base `radix`.
pub open spec fn all_digits(s: Seq<char>, radix: nat) -> bool {
    forall|i: int| 0 <= i < s.len() ==> digit_value(#[trigger] s[i]) < radix
}

/// The digits of an unsigned number, after an optional `+`.
pub open spec fn unsigned_body(s: Seq<char>) -> Seq<char> {
    if s.len() > 0 && s[0] == '+' {
        s.drop_first()
    } else {
        s
    }
}

/// A non-empty digit string whose value is at most `max`.
pub open spec fn digits_within(d: Seq<char>, radix: nat, max: nat) -> bool {
    d.len() > 0 && all_digits(d, radix) && digits_value(d, radix) <= max
}

/// An unsigned integer in base `radix`, as `u32::from_str_radix` (and, for
/// base ten, `str::parse::<u32>`) read it: an optional `+`, then one or more
/// digits, of value at most `max`.
pub open spec fn parse_unsigned(s: Seq<char>, radix: nat, max: nat) -> Option<nat> {
    let d = unsigned_body(s);
    if digits_within(d, radix, max) {
        Some(digits_value(d, radix))
    } else {
        None
    }
}

/// A signed decimal `i32`, as `str::parse::<i32>` reads it: an optional
/// sign, then one or more decimal digits, within the range of `i32`.
pub open spec fn parse_i32(s: Seq<char>) -> Option<int> {
    if s.len() > 0 && s[0] == '-' {
        let d = s.drop_first();
        if digits_within(d, 10, 0x8000_0000) {
            Some(-digits_value(d, 10))
        } else {
            None
        }
    } else {
        match parse_unsigned(s, 10, 0x7fff_ffff) {
            Some(v) => Some(v as int),
            None => None,
        }
    }
}

/// The character of digit `d`.
pub fn digit_to_char(d: u64) -> (c: char)
    requires
        d < 16,
    ensures
        c == digit_char(d as nat),
{
    let b = d as u8;
    if d < 10 {
        (b + 48) as char
    } else {
        (b + 55) as char
    }
}

/// Decimal representation of `n`.
pub fn dec_chars(n: u64) -> (r: Vec<char>)
    ensures
        r@ == dec_digits(n as nat),
    decreases n,
{
    if n < 10 {
        let mut r = Vec::new();
        r.push(digit_to_char(n));
        assert(r@ =~= seq![digit_char(n as nat)]);
        r
    } else {
        let mut r = dec_chars(n / 10);
        r.push(digit_to_char(n % 10));
        r
    }
}

/// Upper-case hexadecimal representation of `n`.
pub fn hex_chars(n: u64) -> (r: Vec<char>)
    ensures
        r@ == hex_digits(n as nat),
    decreases n,
{
    if n < 16 {
        let mut r = Vec::new();
        r.push(digit_to_char(n));
        assert(r@ =~= seq![digit_char(n as nat)]);
        r
    } else {
        let mut r = hex_chars(n / 16);
        r.push(digit_to_char(n % 16));
        r
    }
}

/// Decimal representation of a signed number.
pub fn signed_dec_chars(v: i64) -> (r: Vec<char>)
    requires
        v > i64::MIN,
    ensures
        r@ == signed_dec(v as int),
{
    if v < 0 {
        let mut r = Vec::new();
        r.push('-');
        let d = dec_chars((-v) as u64);
        append_chars(&mut r, &d);
        assert(r@ =~= seq!['-'] + dec_digits((-v) as nat));
        r
    } else {
        dec_chars(v as u64)
    }
}


/// The value of a digit character (see [`digit_value`]).
pub fn char_digit_value(c: char) -> (d: u64)
    ensures
        d == digit_value(c),
{
    let n = c as u32;
    if 48 <= n && n <= 57 {
        (n - 48) as u64
    } else if 65 <= n && n <= 70 {
        (n - 55) as u64
    } else if 97 <= n && n <= 102 {
        (n - 87) as u64
    } else {
        99
    }
}

proof fn lemma_digits_value_prefix(t: Seq<char>, radix: nat, k: int)
    requires
        radix >= 1,
        0 <= k <= t.len(),
    ensures
        digits_value(t.take(k), radix) <= digits_value(t, radix),
    decreases t.len() - k,
{
    if k < t.len() {
        lemma_digits_value_prefix(t, radix, k + 1);
        assert(t.take(k + 1).drop_last() =~= t.take(k));
        let v = digits_value(t.take(k), radix);
        assert(v * radix >= v) by (nonlinear_arith)
            requires
                radix >= 1,
        ;
    } else {
        assert(t.take(k) =~= t);
    }
}

/// Reads the digit string `d[start..]` in base `radix`, refusing an empty
/// string, a non-digit, or a value above `max`.
fn parse_digits(d: &Vec<char>, start: usize, radix: u64, max: u64) -> (r: Option<u64>)
    requires
        start <= d.len(),
        radix == 10 || radix == 16,
        max <= 0x1_0000_0000,
    ensures
        match r {
            Some(x) => digits_within(d@.skip(start as int), radix as nat, max as nat) && x
                == digits_value(d@.skip(start as int), radix as nat),
            None => !digits_within(d@.skip(start as int), radix as nat, max as nat),
        },
{
    let ghost t = d@.skip(start as int);
    if start == d.len() {
        return None;
    }
    let mut acc: u64 = 0;
    let mut i: usize = start;
    assert(t.take(0) =~= Seq::<char>::empty());
    while i < d.len()
        invariant
            start <= i <= d.len(),
            t == d@.skip(start as int),
            radix == 10 || radix == 16,
            max <= 0x1_0000_0000,
            acc <= max,
            all_digits(t.take(i - start), radix as nat),
            acc == digits_value(t.take(i - start), radix as nat),
        decreases d.len() - i,
    {
        let dv = char_digit_value(d[i]);
        assert(t[i - start] == d@[i as int]);
        if dv >= radix {
            return None;
        }
        assert(acc * radix + dv <= 0x1_0000_0000 * 16 + 15) by (nonlinear_arith)
            requires
                acc <= 0x1_0000_0000,
                radix <= 16,
                dv < 16,
        ;
        let next = acc * radix + dv;
        assert(t.take(i + 1 - start).drop_last() =~= t.take(i - start));
        assert(t.take(i + 1 - start).last() == d@[i as int]);
        assert(next == digits_value(t.take(i + 1 - start), radix as nat));
        assert(all_digits(t.take(i + 1 - start), radix as nat)) by {
            assert forall|j: int| 0 <= j < i + 1 - start implies digit_value(
                #[trigger] t.take(i + 1 - start)[j],
            ) < radix as nat by {
                if j < i - start {
                    assert(t.take(i + 1 - start)[j] == t.take(i - start)[j]);
                }
            }
        }
        if next > max {
            proof {
                lemma_digits_value_prefix(t, radix as nat, i + 1 - start);
            }
            return None;
        }
        acc = next;
        i = i + 1;
    }
    assert(t.take(i - start) =~= t);
    Some(acc)
}

/// Reads an unsigned 32-bit number in base `radix` (see [`parse_unsigned`]).
pub fn parse_u32_radix(v: &Vec<char>, radix: u64) -> (r: Option<u32>)
    requires
        radix == 10 || radix == 16,
    ensures
        match r {
            Some(x) => parse_unsigned(v@, radix as nat, 0xffff_ffff) == Some(x as nat),
            None => parse_unsigned(v@, radix as nat, 0xffff_ffff) is None,
        },
{
    let start: usize = if v.len() > 0 && v[0] == '+' {
        1
    } else {
        0
    };
    assert(unsigned_body(v@) =~= v@.skip(start as int));
    match parse_digits(v, start, radix, 0xffff_ffff) {
        Some(x) => Some(x as u32),
        None => None,
    }
}

/// Reads a signed decimal 32-bit number (see [`parse_i32`]).
pub fn parse_i32_dec(v: &Vec<char>) -> (r: Option<i32>)
    ensures
        match r {
            Some(x) => parse_i32(v@) == Some(x as int),
            None => parse_i32(v@) is None,
        },
{
    if v.len() > 0 && v[0] == '-' {
        assert(v@.drop_first() =~= v@.skip(1));
        match parse_digits(v, 1, 10, 0x8000_0000) {
            Some(x) => Some((0 - (x as i64)) as i32),
            None => None,
        }
    } else {
        let start: usize = if v.len() > 0 && v[0] == '+' {
            1
        } else {
            0
        };
        assert(unsigned_body(v@) =~= v@.skip(start as int));
        match parse_digits(v, start, 10, 0x7fff_ffff) {
            Some(x) => Some(x as i32),
            None => None,
        }
    }
}

// ---------------------------------------------------------------------------
// Facts about digit strings
// ---------------------------------------------------------------------------

/// A digit character is neither whitespace nor a sign nor a separator.
pub proof fn lemma_digit_char_kind(c: char)
    requires
        digit_value(c) < 16,
    ensures
        !is_ws(c),
        c != '-',
        c != '+',
        c != ',',
        c != '.',
        c != '\n',
        c != '\r',
        c != '/',
        c != ' ',
        c != '\t',
{
}

pub proof fn lemma_digit_char_value(d: nat)
    requires
        d < 16,
    ensures
        digit_value(digit_char(d)) == d,
{
}

/// The decimal representation reads back as the number it came from.
pub proof fn lemma_dec_digits(n: nat)
    ensures
        dec_digits(n).len() >= 1,
        all_digits(dec_digits(n), 10),
        digits_value(dec_digits(n), 10) == n,
    decreases n,
{
    let s = dec_digits(n);
    if n < 10 {
        lemma_digit_char_value(n);
        assert(s.drop_last() =~= Seq::<char>::empty());
        assert(s.last() == digit_char(n));
        assert(digits_value(s, 10) == digits_value(s.drop_last(), 10) * 10 + digit_value(s.last()));
    } else {
        lemma_dec_digits(n / 10);
        lemma_digit_char_value(n % 10);
        assert(s.drop_last() =~= dec_digits(n / 10));
        assert(s.last() == digit_char(n % 10));
        assert(digits_value(s, 10) == digits_value(s.drop_last(), 10) * 10 + digit_value(s.last()));
        assert((n / 10) * 10 + n % 10 == n);
        assert forall|i: int| 0 <= i < s.len() implies digit_value(#[trigger] s[i]) < 10 by {
            if i < s.len() - 1 {
                assert(s[i] == dec_digits(n / 10)[i]);
            }
        }
    }
}

/// The hexadecimal representation reads back as the number it came from.
pub proof fn lemma_hex_digits(n: nat)
    ensures
        hex_digits(n).len() >= 1,
        all_digits(hex_digits(n), 16),
        digits_value(hex_digits(n), 16) == n,
    decreases n,
{
    let s = hex_digits(n);
    if n < 16 {
        lemma_digit_char_value(n);
        assert(s.drop_last() =~= Seq::<char>::empty());
        assert(s.last() == digit_char(n));
        assert(digits_value(s, 16) == digits_value(s.drop_last(), 16) * 16 + digit_value(s.last()));
    } else {
        lemma_hex_digits(n / 16);
        lemma_digit_char_value(n % 16);
        assert(s.drop_last() =~= hex_digits(n / 16));
        assert(s.last() == digit_char(n % 16));
        assert(digits_value(s, 16) == digits_value(s.drop_last(), 16) * 16 + digit_value(s.last()));
        assert((n / 16) * 16 + n % 16 == n);
        assert forall|i: int| 0 <= i < s.len() implies digit_value(#[trigger] s[i]) < 16 by {
            if i < s.len() - 1 {
                assert(s[i] == hex_digits(n / 16)[i]);
            }
        }
    }
}

/// A digit string has no surrounding whitespace to trim and holds no
/// separator.
pub proof fn lemma_digits_plain(s: Seq<char>, radix: nat)
    requires
        all_digits(s, radix),
        radix <= 16,
        s.len() >= 1,
    ensures
        trim(s) == s,
        trim_start(s) == s,
        unsigned_body(s) == s,
        !s.contains('-'),
        !s.contains(','),
        !s.contains('\n'),
        s[0] != '-',
{
    lemma_digit_char_kind(s[0]);
    lemma_digit_char_kind(s.last());
    assert(s[s.len() - 1] == s.last());
    if s.contains('-') {
        let k = choose|k: int| 0 <= k < s.len() && s[k] == '-';
        lemma_digit_char_kind(s[k]);
    }
    if s.contains(',') {
        let k = choose|k: int| 0 <= k < s.len() && s[k] == ',';
        lemma_digit_char_kind(s[k]);
    }
    if s.contains('\n') {
        let k = choose|k: int| 0 <= k < s.len() && s[k] == '\n';
        lemma_digit_char_kind(s[k]);
    }
}

/// Reading a decimal representation gives back the number.
pub proof fn lemma_parse_dec(n: nat, max: nat)
    requires
        n <= max,
    ensures
        parse_unsigned(dec_digits(n), 10, max) == Some(n),
{
    lemma_dec_digits(n);
    lemma_digits_plain(dec_digits(n), 10);
}

/// Reading a hexadecimal representation gives back the number.
pub proof fn lemma_parse_hex(n: nat, max: nat)
    requires
        n <= max,
    ensures
        parse_unsigned(hex_digits(n), 16, max) == Some(n),
        trim(hex_digits(n)) == hex_digits(n),
        !hex_digits(n).contains('-'),
{
    lemma_hex_digits(n);
    lemma_digits_plain(hex_digits(n), 16);
}

/// Reading a signed decimal representation gives back the number.
pub proof fn lemma_parse_signed_dec(v: int)
    requires
        -0x8000_0000 <= v <= 0x7fff_ffff,
    ensures
        parse_i32(signed_dec(v)) == Some(v),
        trim(signed_dec(v)) == signed_dec(v),
{
    if v < 0 {
        let d = dec_digits((-v) as nat);
        lemma_dec_digits((-v) as nat);
        lemma_digits_plain(d, 10);
        let s = seq!['-'] + d;
        assert(s.drop_first() =~= d);
        assert(s[0] == '-');
        assert(!is_ws(s[0]));
        lemma_digit_char_kind(d.last());
        assert(s.last() == d.last());
    } else {
        lemma_parse_dec(v as nat, 0x7fff_ffff);
        lemma_dec_digits(v as nat);
        lemma_digits_plain(dec_digits(v as nat), 10);
    }
}

} // verus!
