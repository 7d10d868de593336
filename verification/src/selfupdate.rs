//! Self-update decisions: which release is newer, which asset fits the
//! platform, the published checksum of an asset and whether a download
//! matches it, and how the running binary was installed.
use sha2::Digest;
use vstd::prelude::*;

use crate::paths::{components, components_exec, file_name, file_name_exec};
use crate::text::{
    contains, contains_exec, decimal, extend, extend_str, first_word, first_word_exec, from_chars,
    lemma_word_len, lines, lines_exec, lower, lower_char_exec, parse_unsigned, parse_unsigned_exec,
    slice_to_vec, split_on, split_on_exec, str_eq, to_chars, trim_start, trim_start_exec, views,
    word_len, word_len_exec,
};

verus! {

/// A package manager that owns the installed binary.
#[derive(Debug, Clone, Copy, PartialEq, Eq, Structural)]
pub enum Guard {
    Homebrew,
    Scoop,
    CargoBin,
}

pub open spec fn advice_text(g: Guard) -> Seq<char> {
    match g {
        Guard::Homebrew => "installed via Homebrew — run: brew upgrade rocinante"@,
        Guard::Scoop => "installed via Scoop — run: scoop update rocinante"@,
        Guard::CargoBin => "note: this looks like a cargo install — a future `cargo install` will overwrite the updated binary"@,
    }
}

impl Guard {
    /// What to tell the user instead of (brew, scoop) or alongside (cargo)
    /// updating in place.
    pub fn advice(&self) -> (r: &'static str)
        ensures
            r@ == advice_text(*self),
    {
        match self {
            Guard::Homebrew => "installed via Homebrew — run: brew upgrade rocinante",
            Guard::Scoop => "installed via Scoop — run: scoop update rocinante",
            Guard::CargoBin => "note: this looks like a cargo install — a future `cargo install` will overwrite the updated binary",
        }
    }

    /// A package manager owns the file (a hard stop), as opposed to an
    /// advisory note.
    pub fn blocks_update(&self) -> (r: bool)
        ensures
            r == (*self == Guard::Homebrew || *self == Guard::Scoop),
    {
        match self {
            Guard::Homebrew => true,
            Guard::Scoop => true,
            Guard::CargoBin => false,
        }
    }
}

/// Outcome of comparing the latest release with the running version.
#[derive(Debug, PartialEq)]
pub enum UpdateCheck {
    UpToDate { current: String },
    Available { current: String, latest: String, tag: String },
}

// ---------------------------------------------------------------------------
// Versions
// ---------------------------------------------------------------------------

/// `s` without one leading `v`.
pub open spec fn strip_v(s: Seq<char>) -> Seq<char> {
    if s.len() > 0 && s[0] == 'v' {
        s.drop_first()
    } else {
        s
    }
}

/// Strict `MAJOR.MINOR.PATCH` with an optional leading `v`: exactly three
/// dot-separated parts, each a `u64` as `str::parse` reads one.
pub open spec fn version(s: Seq<char>) -> Option<(nat, nat, nat)> {
    let parts = split_on(strip_v(s), '.');
    if parts.len() == 3 {
        match (
            parse_unsigned(parts[0], u64::MAX as nat),
            parse_unsigned(parts[1], u64::MAX as nat),
            parse_unsigned(parts[2], u64::MAX as nat),
        ) {
            (Some(a), Some(b), Some(c)) => Some((a, b, c)),
            _ => None,
        }
    } else {
        None
    }
}

/// Lexicographic order on version triples.
pub open spec fn triple_gt(l: (nat, nat, nat), c: (nat, nat, nat)) -> bool {
    l.0 > c.0 || (l.0 == c.0 && (l.1 > c.1 || (l.1 == c.1 && l.2 > c.2)))
}

pub open spec fn newer(latest: Seq<char>, current: Seq<char>) -> bool {
    match (version(latest), version(current)) {
        (Some(l), Some(c)) => triple_gt(l, c),
        _ => false,
    }
}

/// Parse a strict version (see `version`); pre-release tags are refused.
pub fn parse_version(s: &str) -> (r: Option<(u64, u64, u64)>)
    ensures
        match r {
            Some((a, b, c)) => version(s@) == Some((a as nat, b as nat, c as nat)),
            None => version(s@) is None,
        },
{
    let c = to_chars(s);
    let body = if c.len() > 0 && c[0] == 'v' {
        slice_to_vec(c.as_slice(), 1, c.len())
    } else {
        slice_to_vec(c.as_slice(), 0, c.len())
    };
    assert(body@ =~= strip_v(s@));
    let parts = split_on_exec(body.as_slice(), '.');
    if parts.len() != 3 {
        return None;
    }
    let a = parse_unsigned_exec(parts[0].as_slice(), u64::MAX);
    let b = parse_unsigned_exec(parts[1].as_slice(), u64::MAX);
    let d = parse_unsigned_exec(parts[2].as_slice(), u64::MAX);
    match (a, b, d) {
        (Some(a), Some(b), Some(d)) => Some((a, b, d)),
        _ => None,
    }
}

/// Whether `latest` is a strictly higher version than `current`; false when
/// either does not parse.
pub fn is_newer(latest: &str, current: &str) -> (r: bool)
    ensures
        r == newer(latest@, current@),
{
    match (parse_version(latest), parse_version(current)) {
        (Some(l), Some(c)) => l.0 > c.0 || (l.0 == c.0 && (l.1 > c.1 || (l.1 == c.1 && l.2 > c.2))),
        _ => false,
    }
}

/// `s` without any leading `v` (`trim_start_matches('v')`).
pub open spec fn strip_all_v(s: Seq<char>) -> Seq<char>
    decreases s.len(),
{
    if s.len() > 0 && s[0] == 'v' {
        strip_all_v(s.drop_first())
    } else {
        s
    }
}

/// What the latest release's tag says: an error when its version does not
/// parse, else whether it is newer than `current`.
pub open spec fn release_status(tag: Seq<char>, current: Seq<char>) -> Result<
    (bool, Seq<char>),
    Seq<char>,
> {
    let latest = strip_all_v(tag);
    if version(latest) is None {
        Err("cannot parse release version from tag `"@ + tag + "`"@)
    } else {
        Ok((newer(latest, current), latest))
    }
}

/// Decide an update check from the latest release's tag and the running
/// version (see `release_status`).
pub fn release_check(tag: &str, current: &str) -> (r: Result<UpdateCheck, String>)
    ensures
        match (r, release_status(tag@, current@)) {
            (Ok(UpdateCheck::Available { current: c, latest: l, tag: t }), Ok((true, lv))) => c@
                == current@ && l@ == lv && t@ == tag@,
            (Ok(UpdateCheck::UpToDate { current: c }), Ok((false, _))) => c@ == current@,
            (Err(e), Err(m)) => e@ == m,
            _ => false,
        },
{
    let c = to_chars(tag);
    let mut k: usize = 0;
    assert(c@.skip(0) =~= c@);
    while k < c.len() && c[k] == 'v'
        invariant
            k <= c@.len(),
            strip_all_v(c@) == strip_all_v(c@.skip(k as int)),
        decreases c@.len() - k,
    {
        assert(c@.skip(k as int).drop_first() =~= c@.skip(k + 1));
        k = k + 1;
    }
    proof {
        assert(c@.skip(k as int) == strip_all_v(c@.skip(k as int)));
    }
    let lv = slice_to_vec(c.as_slice(), k, c.len());
    assert(lv@ =~= c@.skip(k as int));
    let latest = from_chars(lv.as_slice());
    if parse_version(latest.as_str()).is_none() {
        let mut v: Vec<char> = Vec::new();
        extend_str(&mut v, "cannot parse release version from tag `");
        extend_str(&mut v, tag);
        extend_str(&mut v, "`");
        return Err(from_chars(v.as_slice()));
    }
    if is_newer(latest.as_str(), current) {
        Ok(
            UpdateCheck::Available {
                current: crate::text::own(current),
                latest,
                tag: crate::text::own(tag),
            },
        )
    } else {
        Ok(UpdateCheck::UpToDate { current: crate::text::own(current) })
    }
}

// ---------------------------------------------------------------------------
// Release assets and checksums
// ---------------------------------------------------------------------------

/// The release asset built for an (os, arch) pair; every Linux maps to the
/// static musl builds.
pub open spec fn asset_name(os: Seq<char>, arch: Seq<char>) -> Option<Seq<char>> {
    if os == "macos"@ && arch == "x86_64"@ {
        Some("rocinante-x86_64-apple-darwin.tar.gz"@)
    } else if os == "macos"@ && arch == "aarch64"@ {
        Some("rocinante-aarch64-apple-darwin.tar.gz"@)
    } else if os == "linux"@ && arch == "x86_64"@ {
        Some("rocinante-x86_64-unknown-linux-musl.tar.gz"@)
    } else if os == "linux"@ && arch == "aarch64"@ {
        Some("rocinante-aarch64-unknown-linux-musl.tar.gz"@)
    } else if os == "windows"@ && arch == "x86_64"@ {
        Some("rocinante-x86_64-pc-windows-msvc.zip"@)
    } else {
        None
    }
}

/// The release asset for an (os, arch) pair (see `asset_name`).
pub fn asset_for(os: &str, arch: &str) -> (r: Option<&'static str>)
    ensures
        match r {
            Some(a) => asset_name(os@, arch@) == Some(a@),
            None => asset_name(os@, arch@) is None,
        },
{
    if str_eq(os, "macos") && str_eq(arch, "x86_64") {
        Some("rocinante-x86_64-apple-darwin.tar.gz")
    } else if str_eq(os, "macos") && str_eq(arch, "aarch64") {
        Some("rocinante-aarch64-apple-darwin.tar.gz")
    } else if str_eq(os, "linux") && str_eq(arch, "x86_64") {
        Some("rocinante-x86_64-unknown-linux-musl.tar.gz")
    } else if str_eq(os, "linux") && str_eq(arch, "aarch64") {
        Some("rocinante-aarch64-unknown-linux-musl.tar.gz")
    } else if str_eq(os, "windows") && str_eq(arch, "x86_64") {
        Some("rocinante-x86_64-pc-windows-msvc.zip")
    } else {
        None
    }
}

/// What follows the first word of `s` and its leading whitespace.
pub open spec fn after_word(s: Seq<char>) -> Seq<char> {
    trim_start(s).skip(word_len(trim_start(s)) as int)
}

/// A `sha256sum` line `<hash> <name>` (any whitespace between): the hash
/// when the second word is `asset`.
pub open spec fn line_sum(line: Seq<char>, asset: Seq<char>) -> Option<Seq<char>> {
    let hash = first_word(trim_start(line));
    let name = first_word(trim_start(after_word(line)));
    if trim_start(line).len() > 0 && trim_start(after_word(line)).len() > 0 && name == asset {
        Some(hash)
    } else {
        None
    }
}

/// The hash of the first of `ls` that names `asset`.
pub open spec fn sum_in(ls: Seq<Seq<char>>, asset: Seq<char>) -> Option<Seq<char>>
    decreases ls.len(),
{
    if ls.len() == 0 {
        None
    } else {
        match line_sum(ls[0], asset) {
            Some(h) => Some(h),
            None => sum_in(ls.drop_first(), asset),
        }
    }
}

pub open spec fn checksum_text(sums: Seq<char>, asset: Seq<char>) -> Option<Seq<char>> {
    sum_in(lines(sums), asset)
}

fn line_sum_exec(line: &[char], asset: &[char]) -> (r: Option<Vec<char>>)
    ensures
        match r {
            Some(h) => line_sum(line@, asset@) == Some(h@),
            None => line_sum(line@, asset@) is None,
        },
{
    let t = trim_start_exec(line);
    proof {
        lemma_word_len(t@);
    }
    let hash = first_word_exec(t.as_slice());
    let k = word_len_exec(t.as_slice());
    let rest = slice_to_vec(t.as_slice(), k, t.len());
    assert(rest@ =~= after_word(line@));
    let t2 = trim_start_exec(rest.as_slice());
    let name = first_word_exec(t2.as_slice());
    if t.len() > 0 && t2.len() > 0 && crate::text::chars_eq(name.as_slice(), asset) {
        Some(hash)
    } else {
        None
    }
}

/// The published hash of `asset` in `sha256sum`-format text (see
/// `checksum_text`).
pub fn checksum_for(sums: &str, asset: &str) -> (r: Option<String>)
    ensures
        match r {
            Some(h) => checksum_text(sums@, asset@) == Some(h@),
            None => checksum_text(sums@, asset@) is None,
        },
{
    let c = to_chars(sums);
    let a = to_chars(asset);
    let ls = lines_exec(c.as_slice());
    let ghost lv = views(ls@);
    let mut i: usize = 0;
    assert(lv.skip(0) =~= lv);
    while i < ls.len()
        invariant
            i <= ls@.len(),
            lv == views(ls@),
            lv == lines(sums@),
            a@ == asset@,
            sum_in(lv, asset@) == sum_in(lv.skip(i as int), asset@),
        decreases ls@.len() - i,
    {
        assert(lv.skip(i as int)[0] == ls@[i as int]@);
        match line_sum_exec(ls[i].as_slice(), a.as_slice()) {
            Some(h) => {
                return Some(from_chars(h.as_slice()));
            },
            None => {},
        }
        assert(lv.skip(i as int).drop_first() =~= lv.skip(i + 1));
        i = i + 1;
    }
    None
}

/// Lower-case hexadecimal digit for `d < 16`.
pub open spec fn hex_digit(d: nat) -> char {
    if d < 10 {
        (('0' as u32) + d) as char
    } else {
        (('a' as u32) + d - 10) as char
    }
}

/// Lower-case hex encoding, two digits per byte.
pub open spec fn hex_text(b: Seq<u8>) -> Seq<char>
    decreases b.len(),
{
    if b.len() == 0 {
        Seq::empty()
    } else {
        hex_text(b.drop_last()) + seq![
            hex_digit((b.last() / 16) as nat),
            hex_digit((b.last() % 16) as nat),
        ]
    }
}

fn hex_digit_exec(d: u8) -> (c: char)
    requires
        d < 16,
    ensures
        c == hex_digit(d as nat),
{
    let table = [
        '0', '1', '2', '3', '4', '5', '6', '7', '8', '9', 'a', 'b', 'c', 'd', 'e', 'f',
    ];
    let c = table[d as usize];
    assert(c == hex_digit(d as nat)) by {
        assert(d < 16);
    }
    c
}

/// Lower-case hex encoding of `bytes`.
pub fn hex(bytes: &[u8]) -> (r: String)
    ensures
        r@ == hex_text(bytes@),
{
    let mut v: Vec<char> = Vec::new();
    let mut i: usize = 0;
    while i < bytes.len()
        invariant
            i <= bytes@.len(),
            v@ == hex_text(bytes@.take(i as int)),
        decreases bytes@.len() - i,
    {
        let b = bytes[i];
        v.push(hex_digit_exec(b / 16));
        v.push(hex_digit_exec(b % 16));
        assert(bytes@.take(i + 1).drop_last() =~= bytes@.take(i as int));
        i = i + 1;
    }
    assert(bytes@.take(bytes@.len() as int) =~= bytes@);
    from_chars(v.as_slice())
}

/// The SHA-256 digest of `bytes`, as computed by `sha2`.
pub uninterp spec fn sha256_of(bytes: Seq<u8>) -> Seq<u8>;

/// `sha2::Sha256::digest`: the 32-byte SHA-256 digest of `bytes`; it depends
/// on the bytes alone.
#[verifier::external_body]
fn sha256(bytes: &[u8]) -> (r: Vec<u8>)
    ensures
        r@ == sha256_of(bytes@),
        r@.len() == 32,
{
    sha2::Sha256::digest(bytes).to_vec()
}

/// Whether a download whose digest is `digest` may replace the binary: the
/// asset must be listed and the digest's hex must equal the listed hash.
pub open spec fn digest_verdict(sums: Seq<char>, asset: Seq<char>, digest: Seq<u8>) -> Result<
    (),
    Seq<char>,
> {
    match checksum_text(sums, asset) {
        None => Err(asset + " not listed in SHA256SUMS"@),
        Some(expected) => if hex_text(digest) == expected {
            Ok(())
        } else {
            Err(
                "checksum mismatch for "@ + asset + "\n  expected: "@ + expected + "\n  actual:   "@
                    + hex_text(digest) + "\nRefusing to update."@,
            )
        },
    }
}

/// Judge a download's digest against the published checksums (see
/// `digest_verdict`).
pub fn check_digest(sums: &str, asset: &str, digest: &[u8]) -> (r: Result<(), String>)
    ensures
        match (r, digest_verdict(sums@, asset@, digest@)) {
            (Ok(()), Ok(())) => true,
            (Err(e), Err(m)) => e@ == m,
            _ => false,
        },
{
    let expected = match checksum_for(sums, asset) {
        None => {
            let mut v = to_chars(asset);
            extend_str(&mut v, " not listed in SHA256SUMS");
            return Err(from_chars(v.as_slice()));
        },
        Some(h) => h,
    };
    let actual = hex(digest);
    if str_eq(actual.as_str(), expected.as_str()) {
        Ok(())
    } else {
        let mut v: Vec<char> = Vec::new();
        extend_str(&mut v, "checksum mismatch for ");
        extend_str(&mut v, asset);
        extend_str(&mut v, "\n  expected: ");
        extend_str(&mut v, expected.as_str());
        extend_str(&mut v, "\n  actual:   ");
        extend_str(&mut v, actual.as_str());
        extend_str(&mut v, "\nRefusing to update.");
        Err(from_chars(v.as_slice()))
    }
}

/// Verify downloaded bytes against the published checksums: hash them with
/// SHA-256 and judge the digest (see `digest_verdict`).
pub fn verify_download(sums: &str, asset: &str, bytes: &[u8]) -> (r: Result<(), String>)
    ensures
        match (r, digest_verdict(sums@, asset@, sha256_of(bytes@))) {
            (Ok(()), Ok(())) => true,
            (Err(e), Err(m)) => e@ == m,
            _ => false,
        },
{
    let d = sha256(bytes);
    check_digest(sums, asset, d.as_slice())
}

// ---------------------------------------------------------------------------
// Install locations (`/`-separated paths)
// ---------------------------------------------------------------------------

/// Some piece of `p` contains `scoop` in any ASCII case.
pub open spec fn has_scoop_piece(p: Seq<char>) -> bool {
    exists|i: int|
        0 <= i < split_on(p, '/').len() && contains(
            lower(#[trigger] split_on(p, '/')[i]),
            "scoop"@,
        )
}

/// How the binary at `exe` looks to have been installed: Homebrew when the
/// path runs through a `Cellar` or `/opt/homebrew/`, Scoop when a piece
/// names `scoop`, a cargo install when it lies under `<home>/.cargo/bin`.
pub open spec fn install_guard(exe: Seq<char>, home: Option<Seq<char>>) -> Option<Guard> {
    if contains(exe, "/Cellar/"@) || "/opt/homebrew/"@.is_prefix_of(exe) {
        Some(Guard::Homebrew)
    } else if has_scoop_piece(exe) {
        Some(Guard::Scoop)
    } else {
        match home {
            Some(h) => if (components(h) + seq![".cargo"@, "bin"@]).is_prefix_of(components(exe)) {
                Some(Guard::CargoBin)
            } else {
                None
            },
            None => None,
        }
    }
}

fn lower_exec(s: &[char]) -> (r: Vec<char>)
    ensures
        r@ == lower(s@),
{
    let mut r: Vec<char> = Vec::new();
    let mut i: usize = 0;
    while i < s.len()
        invariant
            i <= s@.len(),
            r@ == lower(s@.take(i as int)),
        decreases s@.len() - i,
    {
        r.push(lower_char_exec(s[i]));
        assert(lower(s@.take(i + 1)) =~= lower(s@.take(i as int)).push(crate::text::lower_char(s@[i as int])));
        i = i + 1;
    }
    assert(s@.take(s@.len() as int) =~= s@);
    r
}

fn seqs_prefix(a: &Vec<Vec<char>>, b: &Vec<Vec<char>>) -> (r: bool)
    ensures
        r == views(a@).is_prefix_of(views(b@)),
{
    if a.len() > b.len() {
        return false;
    }
    let mut i: usize = 0;
    while i < a.len()
        invariant
            i <= a@.len() <= b@.len(),
            forall|j: int| 0 <= j < i ==> views(a@)[j] == views(b@)[j],
        decreases a@.len() - i,
    {
        if !crate::text::chars_eq(a[i].as_slice(), b[i].as_slice()) {
            proof {
                assert(views(a@)[i as int] != views(b@)[i as int]);
                if views(a@).is_prefix_of(views(b@)) {
                    assert(views(b@).subrange(0, views(a@).len() as int)[i as int] == views(b@)[i as int]);
                }
            }
            return false;
        }
        i = i + 1;
    }
    assert forall|j: int| 0 <= j < views(a@).len() implies views(b@).subrange(
        0,
        views(a@).len() as int,
    )[j] == views(a@)[j] by {
        assert(views(a@)[j] == views(b@)[j]);
    }
    assert(views(b@).subrange(0, views(a@).len() as int) =~= views(a@));
    true
}

/// Classify the install location of the binary at `exe` (see `install_guard`).
pub fn classify_install(exe: &str, home: Option<&str>) -> (r: Option<Guard>)
    ensures
        r == install_guard(
            exe@,
            match home {
                Some(h) => Some(h@),
                None => None,
            },
        ),
{
    let e = to_chars(exe);
    let cellar = to_chars("/Cellar/");
    let brew = to_chars("/opt/homebrew/");
    let brew_prefix = crate::text::starts_with_exec(e.as_slice(), brew.as_slice());
    if contains_exec(e.as_slice(), cellar.as_slice()) || brew_prefix {
        return Some(Guard::Homebrew);
    }
    let ps = split_on_exec(e.as_slice(), '/');
    let ghost pv = views(ps@);
    let scoop = to_chars("scoop");
    let mut found = false;
    let mut i: usize = 0;
    while i < ps.len() && !found
        invariant
            i <= ps@.len(),
            pv == views(ps@),
            pv == split_on(exe@, '/'),
            scoop@ == "scoop"@,
            found == (exists|j: int| 0 <= j < i && contains(lower(#[trigger] pv[j]), "scoop"@)),
        decreases ps@.len() - i,
    {
        let l = lower_exec(ps[i].as_slice());
        if contains_exec(l.as_slice(), scoop.as_slice()) {
            found = true;
        }
        assert(pv[i as int] == ps@[i as int]@);
        i = i + 1;
    }
    if found {
        return Some(Guard::Scoop);
    }
    match home {
        None => None,
        Some(h) => {
            let hc = to_chars(h);
            let mut base = components_exec(hc.as_slice());
            let ghost hv = views(base@);
            base.push(to_chars(".cargo"));
            base.push(to_chars("bin"));
            assert(views(base@) =~= hv + seq![".cargo"@, "bin"@]);
            let ec = components_exec(e.as_slice());
            if seqs_prefix(&base, &ec) {
                Some(Guard::CargoBin)
            } else {
                None
            }
        },
    }
}

/// What `Path::with_file_name` gives for the path `p` and the name `n`.
pub uninterp spec fn with_file_name_of(p: Seq<char>, n: Seq<char>) -> Seq<char>;

/// `std::path::Path::with_file_name`: `p` with its last component replaced
/// by `n` (or `n` pushed when `p` has no file name); it depends on the two
/// texts alone.
#[verifier::external_body]
fn path_with_file_name(p: &str, n: &str) -> (r: String)
    ensures
        r@ == with_file_name_of(p@, n@),
{
    std::path::Path::new(p).with_file_name(n).to_string_lossy().into_owned()
}

/// The path next to `exe` whose name is `exe`'s full name, a dot and
/// `suffix` (`rocinante.exe` becomes `rocinante.exe.old`, never
/// `rocinante.old`).
pub open spec fn sibling_path(exe: Seq<char>, suffix: Seq<char>) -> Seq<char> {
    let name = match file_name(exe) {
        Some(n) => n,
        None => "rocinante"@,
    };
    with_file_name_of(exe, name + seq!['.'] + suffix)
}

/// The staging or backup path next to `exe` (see `sibling_path`).
pub fn sibling(exe: &str, suffix: &str) -> (r: String)
    ensures
        r@ == sibling_path(exe@, suffix@),
{
    let mut v = match file_name_exec(exe) {
        Some(n) => n,
        None => to_chars("rocinante"),
    };
    let ghost base = v@;
    v.push('.');
    extend_str(&mut v, suffix);
    assert(v@ =~= base + seq!['.'] + suffix@);
    let name = from_chars(v.as_slice());
    path_with_file_name(exe, name.as_str())
}

} // verus!
