//! Reading the downloaded ZIP archives: which entries there are, where each
//! one goes inside the destination directory, and which entry is a wanted
//! file. The archive format itself is read by the `zip` crate.

use vstd::prelude::*;

use zip::result::ZipError;

use crate::text::{
    append_chars, append_str, chars_eq, chars_eq_str, chars_of, join, join_chars, split,
    split_chars, string_of, views,
};

verus! {

#[verifier::external_type_specification]
#[verifier::external_body]
pub struct ExZipError(ZipError);

/// The number of entries that `zip::ZipArchive::new` finds in `bytes`, or
/// `None` when it refuses them.
pub uninterp spec fn zip_entry_count(bytes: Seq<u8>) -> Option<nat>;

/// The name and the decompressed contents of entry `i` of the archive
/// `bytes` as `zip::ZipArchive::by_index` gives them, or `None` when that
/// entry cannot be read.
pub uninterp spec fn zip_entry(bytes: Seq<u8>, i: nat) -> Option<(Seq<char>, Seq<u8>)>;

/// Opens `bytes` with `zip::ZipArchive::new` and gives `ZipArchive::len`.
/// What is stated: the count is the named one, and the call fails exactly
/// when the archive is refused.
#[verifier::external_body]
fn zip_count_entries(bytes: &[u8]) -> (r: Result<usize, ZipError>)
    ensures
        r matches Ok(n) ==> zip_entry_count(bytes@) == Some(n as nat),
        r is Err ==> zip_entry_count(bytes@) is None,
{
    zip::ZipArchive::new(std::io::Cursor::new(bytes)).map(|a| a.len())
}

/// Opens `bytes` with `zip::ZipArchive::new`, takes entry `i` with
/// `ZipArchive::by_index`, and reads its name (`ZipFile::name`) and its
/// contents (`Read::read_to_end`). What is stated: the result is the named
/// one, and the call fails exactly when that entry cannot be read.
#[verifier::external_body]
fn zip_read_entry(bytes: &[u8], i: usize) -> (r: Result<(String, Vec<u8>), ZipError>)
    requires
        zip_entry_count(bytes@) matches Some(n) && i < n,
    ensures
        r matches Ok(e) ==> zip_entry(bytes@, i as nat) == Some((e.0@, e.1@)),
        r is Err ==> zip_entry(bytes@, i as nat) is None,
{
    let mut archive = zip::ZipArchive::new(std::io::Cursor::new(bytes))?;
    let mut file = archive.by_index(i)?;
    let name = file.name().to_string();
    let mut data: Vec<u8> = Vec::new();
    std::io::Read::read_to_end(&mut file, &mut data)?;
    Ok((name, data))
}

/// The name of entry `i` of the archive `bytes` as
/// `zip::ZipArchive::by_index` and `ZipFile::name` give it (its contents
/// are not read), or `None` when that entry cannot be opened.
pub uninterp spec fn zip_entry_name(bytes: Seq<u8>, i: nat) -> Option<Seq<char>>;

/// Opens `bytes` with `zip::ZipArchive::new`, takes entry `i` with
/// `ZipArchive::by_index` and gives its name (`ZipFile::name`), without
/// reading its contents. What is stated: the result is the named one, and
/// the call fails exactly when that entry cannot be opened.
#[verifier::external_body]
fn zip_read_name(bytes: &[u8], i: usize) -> (r: Result<String, ZipError>)
    requires
        zip_entry_count(bytes@) matches Some(n) && i < n,
    ensures
        r matches Ok(name) ==> zip_entry_name(bytes@, i as nat) == Some(name@),
        r is Err ==> zip_entry_name(bytes@, i as nat) is None,
{
    let mut archive = zip::ZipArchive::new(std::io::Cursor::new(bytes))?;
    let file = archive.by_index(i)?;
    Ok(file.name().to_string())
}

/// The text of a `zip` error (its `Display`); what it says is not stated.
#[verifier::external_body]
fn zip_error_text(e: &ZipError) -> String {
    format!("{}", e)
}

// ---------------------------------------------------------------------------
// Entry names
// ---------------------------------------------------------------------------

/// A path separator of an entry name (`/`, or `\` as Windows has it).
pub open spec fn is_path_sep(c: char) -> bool {
    c == '/' || c == '\\'
}

/// An entry names a directory when its name ends with a separator (the
/// rule `zip` applies in `ZipFile::is_dir`).
pub open spec fn entry_is_dir_name(name: Seq<char>) -> bool {
    name.len() > 0 && is_path_sep(name.last())
}

/// Whether the entry `name` is a directory (see [`entry_is_dir_name`]).
pub fn entry_is_dir(name: &str) -> (r: bool)
    ensures
        r == entry_is_dir_name(name@),
{
    let v = chars_of(name);
    v.len() > 0 && (v[v.len() - 1] == '/' || v[v.len() - 1] == '\\')
}

/// `name` with every `\` made a `/`.
pub open spec fn unify_seps(name: Seq<char>) -> Seq<char> {
    name.map_values(|c: char| if c == '\\' { '/' } else { c })
}

/// `v` with every `\` made a `/` (see [`unify_seps`]).
fn unified_chars(v: &Vec<char>) -> (u: Vec<char>)
    ensures
        u@ == unify_seps(v@),
{
    let mut u: Vec<char> = Vec::new();
    let mut i: usize = 0;
    while i < v.len()
        invariant
            i <= v.len(),
            u@ == unify_seps(v@.take(i as int)),
        decreases v.len() - i,
    {
        let c = if v[i] == '\\' {
            '/'
        } else {
            v[i]
        };
        u.push(c);
        i = i + 1;
        assert(unify_seps(v@.take(i as int)) =~= unify_seps(v@.take((i - 1) as int)).push(c));
    }
    assert(v@.take(v.len() as int) =~= v@);
    u
}

/// Whether `v` begins with a drive prefix (see [`has_drive_prefix`]).
fn starts_with_drive(v: &Vec<char>) -> (r: bool)
    ensures
        r == has_drive_prefix(v@),
{
    v.len() >= 2 && v[1] == ':' && ((65 <= (v[0] as u32) && (v[0] as u32) <= 90) || (97 <= (
    v[0] as u32) && (v[0] as u32) <= 122))
}

/// `c` begins with a Windows drive prefix: an ASCII letter and `:`.
pub open spec fn has_drive_prefix(c: Seq<char>) -> bool {
    c.len() >= 2 && is_ascii_letter(c[0]) && c[1] == ':'
}

/// A component that is kept in an extracted path: not empty, `.` or `..`,
/// and not beginning with a drive prefix (once a name is cut at `/` and
/// `\`, a drive prefix is the one form that could make `Path::join` leave
/// the destination). Every other component is kept unchanged.
pub open spec fn kept_component(c: Seq<char>) -> bool {
    c.len() > 0 && c != "."@ && c != ".."@ && !has_drive_prefix(c)
}

/// Where an entry goes inside the destination directory: the components of
/// its name, cut at `/` and at `\`, without those that are not kept (see
/// [`kept_component`]), joined with the platform separator `sep`.
pub open spec fn sanitized_path(name: Seq<char>, sep: char) -> Seq<char> {
    join(split(unify_seps(name), '/').filter(|c: Seq<char>| kept_component(c)), seq![sep])
}

fn is_kept_component(c: &Vec<char>) -> (r: bool)
    ensures
        r == kept_component(c@),
{
    c.len() > 0 && !chars_eq_str(c, ".") && !chars_eq_str(c, "..") && !starts_with_drive(c)
}

/// The place of an entry inside the destination directory (see
/// [`sanitized_path`]).
pub fn sanitize_entry_path(name: &str, sep: char) -> (r: String)
    ensures
        r@ == sanitized_path(name@, sep),
{
    let parts = split_chars(&unified_chars(&chars_of(name)), '/');
    let ghost all = views(parts@);
    let mut kept: Vec<Vec<char>> = Vec::new();
    let mut i: usize = 0;
    assert(all.take(0) =~= Seq::<Seq<char>>::empty());
    proof {
        reveal_with_fuel(Seq::<_>::filter, 1);
    }
    while i < parts.len()
        invariant
            i <= parts.len(),
            all == views(parts@),
            views(kept@) == all.take(i as int).filter(|c: Seq<char>| kept_component(c)),
        decreases parts.len() - i,
    {
        assert(all.take(i + 1).drop_last() =~= all.take(i as int));
        assert(all.take(i + 1).last() == parts@[i as int]@);
        proof {
            reveal_with_fuel(Seq::<_>::filter, 1);
        }
        if is_kept_component(&parts[i]) {
            let c = crate::text::sub_chars(&parts[i], 0, parts[i].len());
            assert(c@ =~= parts@[i as int]@);
            let ghost before = views(kept@);
            kept.push(c);
            assert(views(kept@) =~= before.push(all.take(i + 1).last()));
        }
        i = i + 1;
    }
    assert(all.take(parts.len() as int) =~= all);
    let mut sv: Vec<char> = Vec::new();
    sv.push(sep);
    assert(sv@ =~= seq![sep]);
    string_of(&join_chars(&kept, &sv))
}

/// An ASCII letter.
pub open spec fn is_ascii_letter(c: char) -> bool {
    (65 <= (c as u32) <= 90) || (97 <= (c as u32) <= 122)
}

/// `s` without its Windows drive prefix (a letter and `:`), if it has one.
pub open spec fn strip_drive(s: Seq<char>) -> Seq<char> {
    if has_drive_prefix(s) {
        s.skip(2)
    } else {
        s
    }
}

/// The final component of an entry name, as Windows' `Path::file_name`
/// gives it: a drive prefix is passed over, `/` and `\` both separate,
/// empty and `.` components are skipped, and there is none when nothing is
/// left or the last component is `..`.
pub open spec fn entry_file_name(name: Seq<char>) -> Option<Seq<char>> {
    let cs = split(strip_drive(unify_seps(name)), '/').filter(
        |c: Seq<char>| c.len() > 0 && c != "."@,
    );
    if cs.len() == 0 || cs.last() == ".."@ {
        None
    } else {
        Some(cs.last())
    }
}

/// The final component of an entry name, or nothing (the empty text) when
/// it has none (see [`entry_file_name`]).
pub open spec fn entry_base_name(name: Seq<char>) -> Seq<char> {
    match entry_file_name(name) {
        Some(f) => f,
        None => Seq::<char>::empty(),
    }
}

/// Whether the final component of the entry `name` is `file_name` (see
/// [`entry_base_name`]).
pub fn entry_has_file_name(name: &str, file_name: &str) -> (r: bool)
    ensures
        r == (entry_base_name(name@) == file_name@),
{
    let w = unified_chars(&chars_of(name));
    let u = if starts_with_drive(&w) {
        crate::text::sub_chars(&w, 2, w.len())
    } else {
        crate::text::sub_chars(&w, 0, w.len())
    };
    assert(u@ =~= strip_drive(w@));
    let parts = split_chars(&u, '/');
    let ghost all = views(parts@);
    let ghost keep = |c: Seq<char>| c.len() > 0 && c != "."@;
    let mut last: Option<usize> = None;
    let mut j: usize = 0;
    assert(all.take(0) =~= Seq::<Seq<char>>::empty());
    proof {
        reveal_with_fuel(Seq::<_>::filter, 1);
    }
    while j < parts.len()
        invariant
            j <= parts.len(),
            all == views(parts@),
            keep == (|c: Seq<char>| c.len() > 0 && c != "."@),
            match last {
                None => all.take(j as int).filter(keep).len() == 0,
                Some(k) => k < j && all.take(j as int).filter(keep).len() > 0
                    && all.take(j as int).filter(keep).last() == all[k as int],
            },
        decreases parts.len() - j,
    {
        assert(all.take(j + 1).drop_last() =~= all.take(j as int));
        assert(all.take(j + 1).last() == parts@[j as int]@);
        proof {
            reveal_with_fuel(Seq::<_>::filter, 1);
        }
        if parts[j].len() > 0 && !chars_eq_str(&parts[j], ".") {
            last = Some(j);
        }
        j = j + 1;
    }
    assert(all.take(parts.len() as int) =~= all);
    let empty: Vec<char> = Vec::new();
    assert(empty@ =~= Seq::<char>::empty());
    match last {
        None => chars_eq_str(&empty, file_name),
        Some(k) => {
            assert(all[k as int] == parts@[k as int]@);
            if chars_eq_str(&parts[k], "..") {
                chars_eq_str(&empty, file_name)
            } else {
                chars_eq_str(&parts[k], file_name)
            }
        },
    }
}

// ---------------------------------------------------------------------------
// Whole archives
// ---------------------------------------------------------------------------

/// An entry of an archive, ready to be written below the destination
/// directory.
pub struct ArchiveEntry {
    /// The place below the destination directory (see [`sanitized_path`]).
    pub path: String,
    /// Whether the entry is a directory.
    pub is_dir: bool,
    /// The decompressed contents.
    pub data: Vec<u8>,
}

/// `e` is entry `i` of the archive, placed with separator `sep`.
pub open spec fn is_placed_entry(bytes: Seq<u8>, i: nat, sep: char, e: ArchiveEntry) -> bool {
    zip_entry(bytes, i) matches Some(ent) && e.path@ == sanitized_path(ent.0, sep) && e.is_dir
        == entry_is_dir_name(ent.0) && e.data@ == ent.1
}

/// Reads the entries of the ZIP archive `bytes` in order, placing each
/// below the destination directory with the platform separator `sep`,
/// until one cannot be read. Gives the entries read before it and, when
/// there is such an entry, the error that stopped the reading; fails as a
/// whole only when the archive cannot be opened (with a message that says
/// so).
pub fn read_archive(bytes: &[u8], sep: char) -> (r: Result<(Vec<ArchiveEntry>, Option<String>), String>)
    ensures
        zip_entry_count(bytes@) is None ==> (r matches Err(m) && crate::text::has_prefix(
            m@,
            "Could not open zip: "@,
        )),
        zip_entry_count(bytes@) matches Some(n) ==> (r matches Ok((v, stop)) && {
            &&& v.len() <= n
            &&& forall|i: int| 0 <= i < v.len() ==> is_placed_entry(bytes@, i as nat, sep, #[trigger] v@[i])
            &&& (stop is None <==> v.len() == n)
            &&& v.len() < n ==> zip_entry(bytes@, v.len() as nat) is None
        }),
{
    let n = match zip_count_entries(bytes) {
        Ok(n) => n,
        Err(e) => {
            let mut m = chars_of("Could not open zip: ");
            let ghost head = m@;
            append_str(&mut m, zip_error_text(&e).as_str());
            assert(m@.take(head.len() as int) =~= head);
            return Err(string_of(&m));
        },
    };
    let mut out: Vec<ArchiveEntry> = Vec::new();
    let mut i: usize = 0;
    while i < n
        invariant
            i <= n,
            zip_entry_count(bytes@) == Some(n as nat),
            out.len() == i,
            forall|k: int| 0 <= k < i ==> is_placed_entry(bytes@, k as nat, sep, #[trigger] out@[k]),
        decreases n - i,
    {
        match zip_read_entry(bytes, i) {
            Ok((name, data)) => {
                let e = ArchiveEntry {
                    path: sanitize_entry_path(name.as_str(), sep),
                    is_dir: entry_is_dir(name.as_str()),
                    data,
                };
                out.push(e);
            },
            Err(e) => {
                return Ok((out, Some(zip_error_text(&e))));
            },
        }
        i = i + 1;
    }
    Ok((out, None))
}

/// What looking for `f` among entries `k..n` gives: `Some(Some(data))` for
/// the first entry whose final component is `f`, `Some(None)` when there is
/// none, and `None` when an entry up to it cannot be opened or that entry's
/// contents cannot be read. Only the names of the entries before it are
/// read.
pub open spec fn find_outcome(bytes: Seq<u8>, f: Seq<char>, k: nat, n: nat) -> Option<
    Option<Seq<u8>>,
>
    decreases n - k,
{
    if k >= n {
        Some(None)
    } else {
        match zip_entry_name(bytes, k) {
            None => None,
            Some(name) => if entry_base_name(name) == f {
                match zip_entry(bytes, k) {
                    Some(e) => Some(Some(e.1)),
                    None => None,
                }
            } else {
                find_outcome(bytes, f, k + 1, n)
            },
        }
    }
}

/// The contents of the first entry of the ZIP archive `bytes` whose final
/// component is `file_name` (see [`find_outcome`]).
pub fn find_in_archive(bytes: &[u8], file_name: &str) -> (r: Result<Vec<u8>, String>)
    ensures
        zip_entry_count(bytes@) is None ==> (r matches Err(m) && crate::text::has_prefix(
            m@,
            "Could not open zip: "@,
        )),
        zip_entry_count(bytes@) matches Some(n) ==> match find_outcome(bytes@, file_name@, 0, n) {
            Some(Some(d)) => r matches Ok(v) && v@ == d,
            Some(None) => r matches Err(m) && m@ == "'"@ + file_name@
                + "' not found in zip archive"@,
            None => r is Err,
        },
{
    let n = match zip_count_entries(bytes) {
        Ok(n) => n,
        Err(e) => {
            let mut m = chars_of("Could not open zip: ");
            let ghost head = m@;
            append_str(&mut m, zip_error_text(&e).as_str());
            assert(m@.take(head.len() as int) =~= head);
            return Err(string_of(&m));
        },
    };
    let ghost total = find_outcome(bytes@, file_name@, 0, n as nat);
    let mut i: usize = 0;
    while i < n
        invariant
            i <= n,
            zip_entry_count(bytes@) == Some(n as nat),
            total == find_outcome(bytes@, file_name@, 0, n as nat),
            total == find_outcome(bytes@, file_name@, i as nat, n as nat),
        decreases n - i,
    {
        match zip_read_name(bytes, i) {
            Ok(name) => {
                if entry_has_file_name(name.as_str(), file_name) {
                    return match zip_read_entry(bytes, i) {
                        Ok((_, data)) => Ok(data),
                        Err(e) => Err(zip_error_text(&e)),
                    };
                }
            },
            Err(e) => {
                return Err(zip_error_text(&e));
            },
        }
        i = i + 1;
    }
    let mut m = chars_of("'");
    append_str(&mut m, file_name);
    append_str(&mut m, "' not found in zip archive");
    Err(string_of(&m))
}

// ---------------------------------------------------------------------------
// Where extracted entries can go
// ---------------------------------------------------------------------------

proof fn lemma_filter_without(s: Seq<Seq<char>>, pred: spec_fn(Seq<char>) -> bool, d: char)
    requires
        forall|i: int| 0 <= i < s.len() ==> !(#[trigger] s[i]).contains(d),
    ensures
        forall|i: int| 0 <= i < s.filter(pred).len() ==> !(#[trigger] s.filter(pred)[i]).contains(d),
    decreases s.len(),
{
    reveal_with_fuel(Seq::<_>::filter, 1);
    if s.len() > 0 {
        let init = s.drop_last();
        assert forall|i: int| 0 <= i < init.len() implies !(#[trigger] init[i]).contains(d) by {
            assert(init[i] == s[i]);
        }
        lemma_filter_without(init, pred, d);
        assert(s[s.len() - 1] == s.last());
        let f = init.filter(pred);
        assert forall|i: int| 0 <= i < s.filter(pred).len() implies !(#[trigger] s.filter(
            pred,
        )[i]).contains(d) by {
            if i < f.len() {
                assert(s.filter(pred)[i] == f[i]);
            }
        }
    }
}

/// The place of an extracted entry never climbs out of the destination,
/// whatever the entry's name, with either platform separator: it is empty
/// (the destination itself) or made only of components that are kept (not
/// empty, `.` or `..`, and not beginning with a drive prefix) and hold
/// neither `/` nor `\`.
pub proof fn lemma_sanitized_path_stays_inside(name: Seq<char>, sep: char)
    requires
        is_path_sep(sep),
    ensures
        ({
            let p = sanitized_path(name, sep);
            p.len() == 0 || forall|i: int|
                0 <= i < split(p, sep).len() ==> {
                    &&& kept_component(#[trigger] split(p, sep)[i])
                    &&& !split(p, sep)[i].contains('/')
                    &&& !split(p, sep)[i].contains('\\')
                }
        }),
{
    let u = unify_seps(name);
    assert(!u.contains('\\')) by {
        if u.contains('\\') {
            let k = choose|k: int| 0 <= k < u.len() && u[k] == '\\';
            assert(u[k] == (if name[k] == '\\' { '/' } else { name[k] }));
        }
    }
    let pieces = split(u, '/');
    let pred = |c: Seq<char>| kept_component(c);
    let kept = pieces.filter(pred);
    crate::text::lemma_split_pieces_without(u, '/', '/');
    crate::text::lemma_split_pieces_without(u, '/', '\\');
    lemma_filter_without(pieces, pred, '/');
    lemma_filter_without(pieces, pred, '\\');
    broadcast use vstd::seq_lib::group_filter_ensures;
    if kept.len() > 0 {
        crate::text::lemma_split_join(kept, sep);
    } else {
        assert(join(kept, seq![sep]) =~= Seq::<char>::empty());
    }
}

proof fn lemma_join_without(fs: Seq<Seq<char>>, sep: char, d: char)
    requires
        sep != d,
        forall|i: int| 0 <= i < fs.len() ==> !(#[trigger] fs[i]).contains(d),
    ensures
        !join(fs, seq![sep]).contains(d),
    decreases fs.len(),
{
    if fs.len() == 1 {
        assert(fs[0] == fs[0]);
    } else if fs.len() > 1 {
        let init = fs.drop_last();
        assert forall|i: int| 0 <= i < init.len() implies !(#[trigger] init[i]).contains(d) by {
            assert(init[i] == fs[i]);
        }
        lemma_join_without(init, sep, d);
        let h = join(init, seq![sep]);
        let l = fs.last();
        assert(fs[fs.len() - 1] == l);
        let j = h + seq![sep] + l;
        if j.contains(d) {
            let k = choose|k: int| 0 <= k < j.len() && j[k] == d;
            if k < h.len() {
                assert(j[k] == h[k]);
            } else if k > h.len() {
                assert(j[k] == l[k - h.len() - 1]);
            }
        }
    }
}

proof fn lemma_filter_keeps_all(s: Seq<Seq<char>>, pred: spec_fn(Seq<char>) -> bool)
    requires
        forall|i: int| 0 <= i < s.len() ==> pred(#[trigger] s[i]),
    ensures
        s.filter(pred) == s,
    decreases s.len(),
{
    reveal_with_fuel(Seq::<_>::filter, 1);
    if s.len() > 0 {
        let init = s.drop_last();
        assert forall|i: int| 0 <= i < init.len() implies pred(#[trigger] init[i]) by {
            assert(init[i] == s[i]);
        }
        lemma_filter_keeps_all(init, pred);
        assert(pred(s[s.len() - 1]));
        assert(init.push(s.last()) =~= s);
    }
}

/// An entry name made of ordinary components (not empty, `.` or `..`,
/// holding neither `/` nor `\`, and not beginning with a letter and `:`)
/// separated by `/` is placed exactly at those components, in order,
/// joined with the platform separator: for instance
/// `NEVC-MTR1-t01-main/.gitignore` stays `NEVC-MTR1-t01-main/.gitignore`.
pub proof fn lemma_sanitized_path_keeps_components(cs: Seq<Seq<char>>, sep: char)
    requires
        forall|i: int|
            0 <= i < cs.len() ==> {
                let c = #[trigger] cs[i];
                &&& c.len() > 0
                &&& c != "."@
                &&& c != ".."@
                &&& !c.contains('/')
                &&& !c.contains('\\')
                &&& !(c.len() >= 2 && ((65 <= (c[0] as u32) <= 90) || (97 <= (c[0] as u32) <= 122))
                    && c[1] == ':')
            },
    ensures
        sanitized_path(join(cs, seq!['/']), sep) == join(cs, seq![sep]),
{
    let j = join(cs, seq!['/']);
    lemma_join_without(cs, '/', '\\');
    assert(unify_seps(j) =~= j) by {
        assert forall|k: int| 0 <= k < j.len() implies unify_seps(j)[k] == j[k] by {
            if j[k] == '\\' {
                assert(j.contains('\\'));
            }
        }
    }
    let pred = |c: Seq<char>| kept_component(c);
    if cs.len() == 0 {
        assert(j =~= Seq::<char>::empty());
        reveal_with_fuel(Seq::<_>::filter, 2);
        assert(split(j, '/') =~= seq![Seq::<char>::empty()]);
        assert(seq![Seq::<char>::empty()].drop_last() =~= Seq::<Seq<char>>::empty());
        assert(seq![Seq::<char>::empty()].filter(pred) =~= Seq::<Seq<char>>::empty());
    } else {
        crate::text::lemma_split_join(cs, '/');
        lemma_filter_keeps_all(cs, pred);
    }
}

} // verus!
