//! Finding the `ClientAppSettings.json` of the active Roblox Player: the
//! decisions, on what the registry and the `Versions` folder hold.
//!
//! Paths are Windows paths, as on the platform the editor is for.
use vstd::prelude::*;

use crate::text::{
    chars_of, contains_text, find_chars, first_occurrence, occurs_at, occurs_at_exec, trim_text,
    trimmed,
};

verus! {

// ─── Paths ───────────────────────────────────────────────────────────────────

/// A Windows path separator.
pub open spec fn is_separator(c: char) -> bool {
    c == '\\' || c == '/'
}

/// A bare drive prefix such as `C:`.
pub open spec fn is_drive(s: Seq<char>) -> bool {
    s.len() == 2 && s[1] == ':' && (('a' <= s[0] && s[0] <= 'z') || ('A' <= s[0] && s[0] <= 'Z'))
}

/// An ASCII letter.
pub open spec fn is_letter(c: char) -> bool {
    ('a' <= c && c <= 'z') || ('A' <= c && c <= 'Z')
}

/// A name that can stand as one path component on its own: not empty,
/// without a separator or a drive colon, and neither `.` nor `..`.
pub open spec fn is_plain_name(s: Seq<char>) -> bool {
    s.len() > 0 && s != seq!['.'] && s != seq!['.', '.'] && forall|i: int|
        0 <= i < s.len() ==> !is_separator(#[trigger] s[i]) && s[i] != ':'
}

/// The length of the name at the start of `s`: up to its first `\`.
pub open spec fn name_len(s: Seq<char>) -> nat
    decreases s.len(),
{
    if s.len() == 0 || s[0] == '\\' {
        0
    } else {
        1 + name_len(s.drop_first())
    }
}

/// A verbatim path: one that starts with `\\?\`.
pub open spec fn is_verbatim(p: Seq<char>) -> bool {
    p.len() >= 4 && p[0] == '\\' && p[1] == '\\' && p[2] == '?' && p[3] == '\\'
}

/// The length of a verbatim path's prefix: `\\?\UNC\server\share` (the
/// share may be missing), `\\?\C:` when a `\` or nothing follows it, or
/// else `\\?\` and the name up to the next `\`. Only `\` separates names in
/// a verbatim path, but `UNC` may be followed by `/` too.
pub open spec fn verbatim_prefix_len(p: Seq<char>) -> int {
    let r = p.skip(4);
    if r.len() >= 4 && r[0] == 'U' && r[1] == 'N' && r[2] == 'C' && is_separator(r[3]) {
        let t = r.skip(4);
        let a: int = name_len(t) as int;
        let b: int = if a < t.len() { name_len(t.skip(a + 1)) as int } else { 0 };
        8 + a + if b > 0 { 1 + b } else { 0 }
    } else if r.len() >= 2 && is_letter(r[0]) && r[1] == ':' && (r.len() == 2 || r[2] == '\\') {
        6
    } else {
        4 + name_len(r) as int
    }
}

/// The names of `s` that are not empty, in order, each followed by `\`:
/// `s` split at each `\`, with the empty names dropped.
pub open spec fn verbatim_names(s: Seq<char>) -> Seq<char>
    decreases s.len(),
{
    if s.len() == 0 {
        s
    } else {
        let n = name_len(s);
        let rest = if n < s.len() { s.skip(n + 1 as int) } else { Seq::empty() };
        (if n == 0 { Seq::empty() } else { s.take(n as int) + seq!['\\'] }) + verbatim_names(rest)
    }
}

/// `base` with a name (see `is_plain_name`) appended, as `PathBuf::push`
/// does on Windows. A
/// verbatim base is rebuilt from its components: its prefix, a `\`, then
/// each of its names followed by `\` (empty names between repeated `\`
/// dropped, `.` and `..` kept), then the name. Any other base gets a `\`
/// before the name unless it is empty, ends in a separator or is a bare
/// drive.
pub open spec fn join_component(base: Seq<char>, comp: Seq<char>) -> Seq<char> {
    if is_verbatim(base) {
        let l = verbatim_prefix_len(base);
        base.take(l) + seq!['\\'] + verbatim_names(base.skip(l)) + comp
    } else if base.len() == 0 || is_separator(base.last()) || is_drive(base) {
        base + comp
    } else {
        base + seq!['\\'] + comp
    }
}

/// `ClientSettings\ClientAppSettings.json` under a version folder.
pub open spec fn settings_path(dir: Seq<char>) -> Seq<char> {
    join_component(join_component(dir, "ClientSettings"@), "ClientAppSettings.json"@)
}

/// A name is no longer than the text it starts.
proof fn lemma_name_len_bound(s: Seq<char>)
    ensures
        name_len(s) <= s.len(),
        name_len(s) < s.len() ==> s[name_len(s) as int] == '\\',
        forall|k: int| 0 <= k < name_len(s) ==> s[k] != '\\',
    decreases s.len(),
{
    if s.len() > 0 && s[0] != '\\' {
        lemma_name_len_bound(s.drop_first());
        assert forall|k: int| 0 <= k < name_len(s) implies s[k] != '\\' by {
            if k > 0 {
                assert(s[k] == s.drop_first()[k - 1]);
            }
        }
    }
}

/// The length of the name that starts at `start`.
fn name_len_exec(cs: &Vec<char>, start: usize) -> (n: usize)
    requires
        start <= cs@.len(),
    ensures
        n == name_len(cs@.skip(start as int)),
        start + n <= cs@.len(),
{
    let mut i = start;
    while i < cs.len() && cs[i] != '\\'
        invariant
            start <= i <= cs@.len(),
            name_len(cs@.skip(start as int)) == (i - start) + name_len(cs@.skip(i as int)),
        decreases cs@.len() - i,
    {
        assert(cs@.skip(i as int).drop_first() =~= cs@.skip(i + 1));
        i = i + 1;
    }
    i - start
}

/// The length of a verbatim path's prefix.
fn verbatim_prefix_len_exec(cs: &Vec<char>) -> (l: usize)
    requires
        is_verbatim(cs@),
    ensures
        l == verbatim_prefix_len(cs@),
        l <= cs@.len(),
{
    let n = cs.len();
    let ghost r = cs@.skip(4);
    if n >= 8 && cs[4] == 'U' && cs[5] == 'N' && cs[6] == 'C' && (cs[7] == '\\' || cs[7] == '/') {
        let a = name_len_exec(cs, 8);
        assert(r.skip(4) =~= cs@.skip(8));
        let b = if 8 + a < n {
            let b = name_len_exec(cs, 8 + a + 1);
            assert(r.skip(4).skip(a + 1) =~= cs@.skip(8 + a + 1));
            b
        } else {
            0
        };
        8 + a + if b > 0 { 1 + b } else { 0 }
    } else if n >= 6 && (('a' <= cs[4] && cs[4] <= 'z') || ('A' <= cs[4] && cs[4] <= 'Z'))
        && cs[5] == ':' && (n == 6 || cs[6] == '\\') {
        6
    } else {
        let k = name_len_exec(cs, 4);
        4 + k
    }
}

/// Appends a name to a path.
fn join_component_exec(base: &str, comp: &str) -> (r: String)
    requires
        is_plain_name(comp@),
    ensures
        r@ == join_component(base@, comp@),
{
    let cs = chars_of(base);
    let n = cs.len();
    proof {
        reveal_strlit("\\");
        assert("\\"@ =~= seq!['\\']);
    }
    if n >= 4 && cs[0] == '\\' && cs[1] == '\\' && cs[2] == '?' && cs[3] == '\\' {
        let l = verbatim_prefix_len_exec(&cs);
        let mut r = base.substring_char(0, l).to_owned();
        r.append("\\");
        let ghost all = verbatim_names(base@.skip(l as int));
        proof {
            let e = Seq::<char>::empty();
            assert(r@ =~= base@.take(l as int) + seq!['\\'] + e);
            assert(all =~= e + verbatim_names(base@.skip(l as int)));
        }
        let mut i = l;
        while i < n
            invariant
                cs@ == base@,
                n == base@.len(),
                l <= i <= n,
                "\\"@ == seq!['\\'],
                exists|done: Seq<char>|
                    r@ == base@.take(l as int) + seq!['\\'] + done && all == done + verbatim_names(
                        base@.skip(i as int),
                    ),
            decreases n - i,
        {
            let ghost done = choose|done: Seq<char>|
                r@ == base@.take(l as int) + seq!['\\'] + done && all == done + verbatim_names(
                    base@.skip(i as int),
                );
            let ghost s = base@.skip(i as int);
            let k = name_len_exec(&cs, i);
            proof {
                lemma_name_len_bound(s);
            }
            let ghost head: Seq<char> = if k == 0 { Seq::empty() } else { s.take(k as int) + seq!['\\'] };
            if k > 0 {
                r.append(base.substring_char(i, i + k));
                r.append("\\");
                assert(base@.subrange(i as int, i + k) =~= s.take(k as int));
            }
            let next = if i + k < n { i + k + 1 } else { n };
            proof {
                let rest = if k < s.len() { s.skip(k + 1) } else { Seq::empty() };
                assert(rest =~= base@.skip(next as int));
                assert(verbatim_names(s) == head + verbatim_names(rest));
                assert(all == (done + head) + verbatim_names(base@.skip(next as int)));
                assert(r@ == base@.take(l as int) + seq!['\\'] + (done + head));
            }
            i = next;
        }
        proof {
            assert(base@.skip(n as int) =~= Seq::<char>::empty());
            let done = choose|done: Seq<char>|
                r@ == base@.take(l as int) + seq!['\\'] + done && all == done + verbatim_names(
                    base@.skip(i as int),
                );
            assert(done =~= all);
        }
        r.append(comp);
        r
    } else {
        let mut r = base.to_owned();
        let bare_drive = n == 2 && cs[1] == ':' && (('a' <= cs[0] && cs[0] <= 'z') || ('A' <= cs[0]
            && cs[0] <= 'Z'));
        if !(n == 0 || cs[n - 1] == '\\' || cs[n - 1] == '/' || bare_drive) {
            r.append("\\");
        }
        r.append(comp);
        r
    }
}

/// Appends `ClientSettings\ClientAppSettings.json` to a version folder's
/// path.
pub fn client_settings_path(version_dir: &str) -> (r: String)
    ensures
        r@ == settings_path(version_dir@),
{
    proof {
        reveal_strlit("ClientSettings");
        reveal_strlit("ClientAppSettings.json");
        assert("ClientSettings"@.len() > 2 && "ClientAppSettings.json"@.len() > 2);
    }
    let d = join_component_exec(version_dir, "ClientSettings");
    join_component_exec(d.as_str(), "ClientAppSettings.json")
}

// ─── The registry ────────────────────────────────────────────────────────────

/// Where the line holding position `q` starts.
pub open spec fn line_start(s: Seq<char>, q: int) -> int
    decreases q,
{
    if q <= 0 {
        0
    } else if s[q - 1] == '\n' {
        q
    } else {
        line_start(s, q - 1)
    }
}

/// Where the line holding position `q` ends (before its `\n`, if any).
pub open spec fn line_end(s: Seq<char>, q: int) -> int
    decreases s.len() - q,
{
    if q >= s.len() {
        s.len() as int
    } else if s[q] == '\n' {
        q
    } else {
        line_end(s, q + 1)
    }
}

/// The first position at which `n` occurs in `h`.
pub open spec fn first_position(h: Seq<char>, n: Seq<char>) -> int {
    choose|i: int| first_occurrence(h, n, i)
}

/// What `reg query ... /v InstallLocation` printed says of the install
/// location: on the first line that mentions `InstallLocation`, the text
/// after its first `REG_SZ`, trimmed, if that is not empty.
pub open spec fn install_location_of(out: Seq<char>) -> Option<Seq<char>> {
    if contains_text(out, "InstallLocation"@) {
        let q = first_position(out, "InstallLocation"@);
        let line = out.subrange(line_start(out, q), line_end(out, q));
        if contains_text(line, "REG_SZ"@) {
            let t = trimmed(line.skip(first_position(line, "REG_SZ"@) + 6));
            if t.len() > 0 {
                Some(t)
            } else {
                None
            }
        } else {
            None
        }
    } else {
        None
    }
}

/// There is one first occurrence.
pub proof fn lemma_first_occurrence_unique(h: Seq<char>, n: Seq<char>, i: int)
    requires
        first_occurrence(h, n, i),
    ensures
        first_position(h, n) == i,
{
    let j = first_position(h, n);
    assert(first_occurrence(h, n, j));
    if j < i {
        assert(!occurs_at(h, n, j));
    } else if i < j {
        assert(!occurs_at(h, n, i));
    }
}

/// Where the line holding position `q` starts.
fn line_start_exec(s: &Vec<char>, q: usize) -> (r: usize)
    requires
        q <= s@.len(),
    ensures
        r == line_start(s@, q as int),
        r <= q,
{
    let mut b = q;
    while b > 0 && s[b - 1] != '\n'
        invariant
            b <= q <= s@.len(),
            line_start(s@, q as int) == line_start(s@, b as int),
        decreases b,
    {
        b = b - 1;
    }
    b
}

/// Where the line holding position `q` ends.
fn line_end_exec(s: &Vec<char>, q: usize) -> (r: usize)
    requires
        q <= s@.len(),
    ensures
        r == line_end(s@, q as int),
        q <= r <= s@.len(),
{
    let mut e = q;
    while e < s.len() && s[e] != '\n'
        invariant
            q <= e <= s@.len(),
            line_end(s@, q as int) == line_end(s@, e as int),
        decreases s@.len() - e,
    {
        e = e + 1;
    }
    e
}

/// The Roblox Player install location that `reg query` printed, if any.
pub fn install_location(out: &str) -> (r: Option<String>)
    ensures
        match r {
            Some(t) => install_location_of(out@) == Some(t@),
            None => install_location_of(out@) is None,
        },
{
    let cs = chars_of(out);
    let key = chars_of("InstallLocation");
    let q = match find_chars(&cs, &key) {
        Some(q) => q,
        None => return None,
    };
    proof {
        lemma_first_occurrence_unique(out@, "InstallLocation"@, q as int);
    }
    let a = line_start_exec(&cs, q);
    let e = line_end_exec(&cs, q);
    let line = out.substring_char(a, e);
    let lc = chars_of(line);
    let tag = chars_of("REG_SZ");
    let p = match find_chars(&lc, &tag) {
        Some(p) => p,
        None => return None,
    };
    proof {
        lemma_first_occurrence_unique(line@, "REG_SZ"@, p as int);
        reveal_strlit("REG_SZ");
    }
    let rest = line.substring_char(p + 6, lc.len());
    let t = trim_text(rest);
    proof {
        assert(rest@ =~= line@.skip(p + 6));
    }
    if t.unicode_len() == 0 {
        None
    } else {
        Some(t)
    }
}

// ─── The Versions folder ─────────────────────────────────────────────────────

/// An entry of `%LocalAppData%\Roblox\Versions`, as plain values.
pub struct VersionDir {
    /// The entry's file name.
    pub name: String,
    /// The entry's full path.
    pub path: String,
    /// Whether the entry is a folder.
    pub is_dir: bool,
    /// When it was last modified, in nanoseconds after the Unix epoch
    /// (negative before it).
    pub modified: i128,
    /// Whether it holds `RobloxPlayerBeta.exe`.
    pub has_player: bool,
}

/// What a `VersionDir` holds.
pub struct VersionDirView {
    pub name: Seq<char>,
    pub path: Seq<char>,
    pub is_dir: bool,
    pub modified: int,
    pub has_player: bool,
}

impl View for VersionDir {
    type V = VersionDirView;

    open spec fn view(&self) -> VersionDirView {
        VersionDirView {
            name: self.name@,
            path: self.path@,
            is_dir: self.is_dir,
            modified: self.modified as int,
            has_player: self.has_player,
        }
    }
}

/// The views of a list of entries.
pub open spec fn dirs_view(v: Seq<VersionDir>) -> Seq<VersionDirView> {
    v.map_values(|d: VersionDir| d@)
}

/// A folder whose name starts with `version-`.
pub open spec fn is_candidate(d: VersionDirView) -> bool {
    d.is_dir && occurs_at(d.name, "version-"@, 0)
}

/// Some candidate holds the player.
pub open spec fn some_player(ds: Seq<VersionDirView>) -> bool {
    exists|j: int| 0 <= j < ds.len() && is_candidate(ds[j]) && ds[j].has_player
}

/// Some entry is a candidate.
pub open spec fn some_candidate(ds: Seq<VersionDirView>) -> bool {
    exists|j: int| 0 <= j < ds.len() && is_candidate(ds[j])
}

/// Entry `i` is the version folder to use: the first candidate holding
/// the player, or, where none does, the first of the most recently
/// modified candidates.
pub open spec fn chosen_version(ds: Seq<VersionDirView>, i: int) -> bool {
    &&& 0 <= i < ds.len()
    &&& is_candidate(ds[i])
    &&& if some_player(ds) {
        ds[i].has_player && forall|j: int| 0 <= j < i && is_candidate(ds[j]) ==> !ds[j].has_player
    } else {
        &&& forall|j: int| 0 <= j < ds.len() && is_candidate(ds[j]) ==> ds[j].modified <= ds[i].modified
        &&& forall|j: int| 0 <= j < i && is_candidate(ds[j]) ==> ds[j].modified < ds[i].modified
    }
}

/// Why no settings path was found.
pub enum DetectError {
    /// `LOCALAPPDATA` is not set.
    LocalAppDataMissing,
    /// The `Versions` folder, at this path, does not exist.
    NotInstalled(String),
    /// The `Versions` folder could not be read; the reason.
    ReadDirFailed(String),
    /// No folder there is named `version-…`.
    NoVersionFolders,
}

/// The message shown for an error.
pub open spec fn detect_error_message(e: DetectError) -> Seq<char> {
    match e {
        DetectError::LocalAppDataMissing => "LOCALAPPDATA environment variable not found"@,
        DetectError::NotInstalled(p) => "Roblox not installed (not found: "@ + p@ + ")"@,
        DetectError::ReadDirFailed(t) => "Cannot read Versions dir: "@ + t@,
        DetectError::NoVersionFolders => "No Roblox version folders found"@,
    }
}

impl DetectError {
    /// The message shown for this error.
    pub fn message(&self) -> (r: String)
        ensures
            r@ == detect_error_message(*self),
    {
        match self {
            DetectError::LocalAppDataMissing => "LOCALAPPDATA environment variable not found".to_owned(),
            DetectError::NotInstalled(p) => {
                let mut m = "Roblox not installed (not found: ".to_owned();
                m.append(p.as_str());
                m.append(")");
                m
            },
            DetectError::ReadDirFailed(t) => {
                let mut m = "Cannot read Versions dir: ".to_owned();
                m.append(t.as_str());
                m
            },
            DetectError::NoVersionFolders => "No Roblox version folders found".to_owned(),
        }
    }
}

/// Whether an entry is a candidate.
fn is_candidate_exec(d: &VersionDir) -> (r: bool)
    ensures
        r == is_candidate(d@),
{
    let name = chars_of(d.name.as_str());
    let prefix = chars_of("version-");
    d.is_dir && occurs_at_exec(&name, &prefix, 0)
}

/// Picks the version folder to use among the entries of the `Versions`
/// folder, in the order they were read.
pub fn pick_version_dir(dirs: &Vec<VersionDir>) -> (r: Result<usize, DetectError>)
    ensures
        match r {
            Ok(i) => chosen_version(dirs_view(dirs@), i as int),
            Err(e) => e is NoVersionFolders && !some_candidate(dirs_view(dirs@)),
        },
{
    let ghost ds = dirs_view(dirs@);
    let mut first_player: Option<usize> = None;
    let mut newest: Option<usize> = None;
    let mut i: usize = 0;
    while i < dirs.len()
        invariant
            ds == dirs_view(dirs@),
            ds.len() == dirs@.len(),
            i <= ds.len(),
            match first_player {
                Some(p) => p < i && is_candidate(ds[p as int]) && ds[p as int].has_player
                    && forall|j: int| 0 <= j < p && is_candidate(ds[j]) ==> !ds[j].has_player,
                None => forall|j: int| 0 <= j < i && is_candidate(ds[j]) ==> !ds[j].has_player,
            },
            match newest {
                Some(b) => b < i && is_candidate(ds[b as int])
                    && (forall|j: int| 0 <= j < i && is_candidate(ds[j]) ==> ds[j].modified <= ds[b as int].modified)
                    && (forall|j: int| 0 <= j < b && is_candidate(ds[j]) ==> ds[j].modified < ds[b as int].modified),
                None => forall|j: int| 0 <= j < i ==> !is_candidate(#[trigger] ds[j]),
            },
        decreases ds.len() - i,
    {
        let d = &dirs[i];
        if is_candidate_exec(d) {
            if first_player.is_none() && d.has_player {
                first_player = Some(i);
            }
            let better = match newest {
                None => true,
                Some(b) => d.modified > dirs[b].modified,
            };
            if better {
                newest = Some(i);
            }
        }
        i = i + 1;
    }
    match first_player {
        Some(p) => Ok(p),
        None => match newest {
            Some(b) => {
                proof {
                    assert(!some_player(ds));
                }
                Ok(b)
            },
            None => Err(DetectError::NoVersionFolders),
        },
    }
}

} // verus!
