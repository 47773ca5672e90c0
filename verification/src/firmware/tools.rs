//! Decisions of the toolchain bootstrap: where the tools and the firmware
//! source live, which release asset holds `arduino-cli`, and how the
//! outcome of an `arduino-cli` run is reported.

use vstd::prelude::*;

use crate::text::{
    append_chars, append_str, chars_of, contains_chars, ends_with_chars, has_infix, has_suffix,
    string_of,
};

verus! {

/// The file name of the Arduino command line tool.
pub const ARDUINO_CLI_EXE: &'static str = "arduino-cli.exe";

/// Where the latest `arduino-cli` release is described.
pub const GITHUB_RELEASES_API: &'static str =
    "https://api.github.com/repos/arduino/arduino-cli/releases/latest";

/// The archive of the firmware source.
pub const FIRMWARE_REPO_ZIP_URL: &'static str =
    "https://github.com/Nexperia/NEVC-MTR1-t01/archive/refs/heads/main.zip";

/// Expected top-level directory name inside the downloaded ZIP archive.
pub const FIRMWARE_ZIP_ROOT: &'static str = "NEVC-MTR1-t01-main";

/// The directory of the application's data, below the user's data directory.
pub const APP_DIR_NAME: &'static str = "nevc_mtr1_gui";

/// The board that the sketch is compiled for and uploaded to.
pub const BOARD_FQBN: &'static str = "arduino:avr:leonardo";

/// The name of the Arduino AVR core.
pub const AVR_CORE: &'static str = "arduino:avr";

// ---------------------------------------------------------------------------
// Paths
// ---------------------------------------------------------------------------

/// `base` is a bare Windows drive (`C:`): a letter followed by `:`.
pub open spec fn is_bare_drive(base: Seq<char>) -> bool {
    base.len() == 2 && ((65 <= (base[0] as u32) <= 90) || (97 <= (base[0] as u32) <= 122))
        && base[1] == ':'
}

/// `base` followed by the relative component `name` (`Path::join`): no
/// separator is added after an empty base, after one that already ends with
/// a separator (`sep`, or `/`, which every platform accepts), or, where the
/// separator is `\`, after a bare drive such as `C:` (which gives the
/// drive-relative `C:name`).
pub open spec fn joined_path(base: Seq<char>, sep: char, name: Seq<char>) -> Seq<char> {
    if base.len() == 0 {
        name
    } else if base.last() == sep || base.last() == '/' || (sep == '\\' && is_bare_drive(base)) {
        base + name
    } else {
        base.push(sep) + name
    }
}

/// Joins the relative component `name` onto `base` with the platform
/// separator `sep` (see [`joined_path`]).
pub fn path_join(base: &str, sep: char, name: &str) -> (r: String)
    ensures
        r@ == joined_path(base@, sep, name@),
{
    let mut v = chars_of(base);
    let bare_drive = v.len() == 2 && v[1] == ':' && ((65 <= (v[0] as u32) && (v[0] as u32) <= 90)
        || (97 <= (v[0] as u32) && (v[0] as u32) <= 122));
    if v.len() > 0 && v[v.len() - 1] != sep && v[v.len() - 1] != '/' && !(sep == '\\'
        && bare_drive) {
        v.push(sep);
    }
    append_str(&mut v, name);
    string_of(&v)
}

/// The application's data directory below the user's data directory `base`.
pub fn app_data_dir_in(base: &str, sep: char) -> (r: String)
    ensures
        r@ == joined_path(base@, sep, APP_DIR_NAME@),
{
    path_join(base, sep, APP_DIR_NAME)
}

/// The directory of the downloaded tools, inside the application's data
/// directory `app_dir`.
pub fn tools_dir(app_dir: &str, sep: char) -> (r: String)
    ensures
        r@ == joined_path(app_dir@, sep, "tools"@),
{
    path_join(app_dir, sep, "tools")
}

/// The directory of the downloaded firmware source, inside the application's
/// data directory `app_dir`.
pub fn firmware_dir(app_dir: &str, sep: char) -> (r: String)
    ensures
        r@ == joined_path(app_dir@, sep, "firmware"@),
{
    path_join(app_dir, sep, "firmware")
}

// ---------------------------------------------------------------------------
// Release assets
// ---------------------------------------------------------------------------

/// One downloadable file of a release, as the release description lists it.
#[derive(Debug, Clone)]
pub struct ReleaseAsset {
    /// The file name (empty when the description gives none).
    pub name: String,
    /// Where to download it, when the description says.
    pub browser_download_url: Option<String>,
}

/// The name of the 64-bit Windows archive of `arduino-cli`.
pub open spec fn is_cli_asset_name(name: Seq<char>) -> bool {
    has_infix(name, "Windows"@) && has_infix(name, "64bit"@) && has_suffix(name, ".zip"@)
}

/// The download address an asset offers, when it is the `arduino-cli`
/// archive.
pub open spec fn cli_asset_url(a: ReleaseAsset) -> Option<Seq<char>> {
    if is_cli_asset_name(a.name@) {
        match a.browser_download_url {
            Some(u) => Some(u@),
            None => None,
        }
    } else {
        None
    }
}

/// The index of the first asset that offers the `arduino-cli` archive
/// (`assets.len()` when none does).
pub open spec fn first_cli_asset(assets: Seq<ReleaseAsset>) -> int
    decreases assets.len(),
{
    if assets.len() == 0 {
        0
    } else if cli_asset_url(assets[0]) is Some {
        0
    } else {
        1 + first_cli_asset(assets.drop_first())
    }
}

proof fn lemma_first_cli_asset_at(assets: Seq<ReleaseAsset>, j: int)
    requires
        0 <= j <= assets.len(),
        forall|k: int| 0 <= k < j ==> cli_asset_url(#[trigger] assets[k]) is None,
        j == assets.len() || cli_asset_url(assets[j]) is Some,
    ensures
        first_cli_asset(assets) == j,
    decreases j,
{
    if j > 0 {
        assert forall|k: int| 0 <= k < j - 1 implies cli_asset_url(
            #[trigger] assets.drop_first()[k],
        ) is None by {
            assert(assets.drop_first()[k] == assets[k + 1]);
        }
        if j < assets.len() {
            assert(assets.drop_first()[j - 1] == assets[j]);
        }
        lemma_first_cli_asset_at(assets.drop_first(), j - 1);
    }
}

/// Whether an asset's name is that of the `arduino-cli` archive.
pub fn is_cli_asset(name: &str) -> (r: bool)
    ensures
        r == is_cli_asset_name(name@),
{
    let n = chars_of(name);
    contains_chars(&n, &chars_of("Windows")) && contains_chars(&n, &chars_of("64bit"))
        && ends_with_chars(&n, &chars_of(".zip"))
}

/// Picks the download address of the 64-bit Windows `arduino-cli` archive
/// from the assets of a release description (`None` when the description
/// has no list of assets).
pub fn select_cli_asset(assets: Option<Vec<ReleaseAsset>>) -> (r: Result<String, String>)
    ensures
        assets is None ==> (r matches Err(m) && m@ == "No assets in release JSON"@),
        assets is Some && first_cli_asset(assets->0@) < assets->0@.len() ==> (r matches Ok(u)
            && Some(u@) == cli_asset_url(assets->0@[first_cli_asset(assets->0@)])),
        assets is Some && first_cli_asset(assets->0@) >= assets->0@.len() ==> (r matches Err(m)
            && m@ == "Could not find Windows 64-bit arduino-cli zip in release"@),
{
    match assets {
        None => Err(string_of(&chars_of("No assets in release JSON"))),
        Some(v) => {
            let mut j: usize = 0;
            while j < v.len() && !(is_cli_asset(v[j].name.as_str())
                && v[j].browser_download_url.is_some())
                invariant
                    j <= v.len(),
                    forall|k: int| 0 <= k < j ==> cli_asset_url(#[trigger] v@[k]) is None,
                decreases v.len() - j,
            {
                j = j + 1;
            }
            proof {
                lemma_first_cli_asset_at(v@, j as int);
            }
            if j < v.len() {
                match &v[j].browser_download_url {
                    Some(u) => Ok(string_of(&chars_of(u.as_str()))),
                    None => Err(string_of(&chars_of("Could not find Windows 64-bit arduino-cli zip in release"))),
                }
            } else {
                Err(string_of(&chars_of("Could not find Windows 64-bit arduino-cli zip in release")))
            }
        },
    }
}

// ---------------------------------------------------------------------------
// Outcomes of arduino-cli runs
// ---------------------------------------------------------------------------

/// Whether the text of `arduino-cli core list` lists the AVR core.
pub fn core_list_has_avr(listing: &str) -> (r: bool)
    ensures
        r == has_infix(listing@, AVR_CORE@),
{
    contains_chars(&chars_of(listing), &chars_of(AVR_CORE))
}

/// The report of a compile run: the combined output on success, otherwise
/// a failure message followed by it.
pub fn compile_outcome(success: bool, stdout: &str, stderr: &str) -> (r: Result<String, String>)
    ensures
        success ==> (r matches Ok(s) && s@ == stdout@ + stderr@),
        !success ==> (r matches Err(m) && m@ == "Compilation failed:\n"@ + stdout@ + stderr@),
{
    let mut combined = chars_of(stdout);
    append_str(&mut combined, stderr);
    if success {
        Ok(string_of(&combined))
    } else {
        let mut m = chars_of("Compilation failed:\n");
        append_chars(&mut m, &combined);
        Err(string_of(&m))
    }
}

/// The report of an upload run: a failure message followed by the combined
/// output when it failed.
pub fn upload_outcome(success: bool, stdout: &str, stderr: &str) -> (r: Result<(), String>)
    ensures
        success ==> r is Ok,
        !success ==> (r matches Err(m) && m@ == "Upload failed:\n"@ + stdout@ + stderr@),
{
    if success {
        Ok(())
    } else {
        let mut m = chars_of("Upload failed:\n");
        append_str(&mut m, stdout);
        append_str(&mut m, stderr);
        Err(string_of(&m))
    }
}

} // verus!
