//! The `zenmon` CLI as seen from the tray: is one installed, which one, can we
//! install or update it.
//!
//! The release installer bundles the CLI next to the tray binary, so "install
//! the CLI" is not a download — it is putting the install directory on the user
//! PATH. Updating the tray replaces that bundled copy in the same step. A CLI
//! that lives anywhere else keeps updating itself through its own
//! `zenmon update`.
use vstd::prelude::*;

use crate::diff::text_view;
use crate::message::string_view;
use crate::text::{
    cat, cat3, cat4, debug_form, debug_quoted, join_spaced, lines_of, lowercase, lowercased, same,
    spaced, split_lines, split_words, stripped_end, tail, tail_of, texts, trim, trimmed, words,
};

verus! {

#[derive(Debug, Clone)]
pub struct CliStatus {
    /// The tray's own version — with one release train, also the version the
    /// CLI is expected to be at.
    pub tray_version: String,
    /// What `zenmon` resolves to on PATH (or the bundled copy, when only the
    /// registry PATH knows about it yet — see `pending_path`).
    pub path: Option<String>,
    pub version: Option<String>,
    /// "tray" (lives in the tray's install dir, updates with the tray),
    /// "cargo" (~/.cargo/bin — cargo owns it), "external" (anything else).
    pub managed_by: Option<String>,
    /// An installer-bundled CLI sits next to the tray binary, so "Install CLI"
    /// is available.
    pub bundled_available: bool,
    /// The user PATH in the registry has the install dir, but this process
    /// (and shells started before the change) don't see it yet.
    pub pending_path: bool,
    /// CLI is present and older than the tray — i.e. older than the release
    /// train this tray came from.
    pub update_available: bool,
}

/// A CLI status, as a mathematical value.
pub struct CliModel {
    pub tray_version: Seq<char>,
    pub path: Option<Seq<char>>,
    pub version: Option<Seq<char>>,
    pub managed_by: Option<Seq<char>>,
    pub bundled_available: bool,
    pub pending_path: bool,
    pub update_available: bool,
}

impl View for CliStatus {
    type V = CliModel;

    open spec fn view(&self) -> CliModel {
        CliModel {
            tray_version: self.tray_version@,
            path: string_view(self.path),
            version: string_view(self.version),
            managed_by: string_view(self.managed_by),
            bundled_available: self.bundled_available,
            pending_path: self.pending_path,
            update_available: self.update_available,
        }
    }
}

/// The file name of the CLI.
pub fn exe_name(windows: bool) -> (s: &'static str)
    ensures
        s@ == (if windows {
            "zenmon.exe"@
        } else {
            "zenmon"@
        }),
{
    if windows {
        "zenmon.exe"
    } else {
        "zenmon"
    }
}

/// Whether a character separates directories.
pub open spec fn separates(c: char) -> bool {
    c == '\\' || c == '/'
}

/// A directory as PATH entries are compared: without separators at its end, and
/// in lower case.
pub open spec fn folded_dir(s: Seq<char>) -> Seq<char> {
    lowercased(stripped_end(s, |c: char| separates(c)))
}

fn fold_dir(s: &str) -> (r: String)
    ensures
        r@ == folded_dir(s@),
{
    let mut n: usize = s.unicode_len();
    let ghost p = |c: char| separates(c);
    assert(s@.take(n as int) =~= s@);
    while n > 0 && (s.get_char(n - 1) == '\\' || s.get_char(n - 1) == '/')
        invariant
            n <= s@.len(),
            p == |c: char| separates(c),
            stripped_end(s@, p) == stripped_end(s@.take(n as int), p),
        decreases n,
    {
        assert(s@.take(n as int).drop_last() =~= s@.take(n as int - 1));
        assert(s@.take(n as int).last() == s@[n as int - 1]);
        n -= 1;
    }
    proof {
        if n > 0 {
            assert(s@.take(n as int).last() == s@[n as int - 1]);
            assert(!p(s@.take(n as int).last()));
        }
        assert(s@.subrange(0, n as int) =~= s@.take(n as int));
    }
    lowercase(s.substring_char(0, n))
}

/// Case-insensitive, trailing-separator-insensitive directory comparison —
/// how Windows PATH entries actually behave.
pub fn same_dir(a: &str, b: &str) -> (r: bool)
    ensures
        r == (folded_dir(a@) == folded_dir(b@)),
{
    same(fold_dir(a).as_str(), fold_dir(b).as_str())
}

/// Who looks after a CLI in the given directory.
pub open spec fn manager(
    dir: Seq<char>,
    tray_dir: Option<Seq<char>>,
    cargo_dir: Option<Seq<char>>,
) -> Seq<char> {
    if tray_dir is Some && folded_dir(tray_dir->0) == folded_dir(dir) {
        "tray"@
    } else if cargo_dir is Some && folded_dir(cargo_dir->0) == folded_dir(dir) {
        "cargo"@
    } else {
        "external"@
    }
}

/// Who looks after a CLI in the given directory.
pub fn classify(dir: &str, tray_dir: Option<&str>, cargo_dir: Option<&str>) -> (s: &'static str)
    ensures
        s@ == manager(dir@, text_view(tray_dir), text_view(cargo_dir)),
{
    if let Some(tray) = tray_dir {
        if same_dir(tray, dir) {
            return "tray";
        }
    }
    if let Some(cargo) = cargo_dir {
        if same_dir(cargo, dir) {
            return "cargo";
        }
    }
    "external"
}

/// Names what reading a text as a semantic version gives: the version's own
/// text, or nothing where it is none.
pub uninterp spec fn parsed_version(text: Seq<char>) -> Option<Seq<char>>;

/// `semver::Version::parse`, with the version written out again by its
/// `Display`. Which texts are versions is not stated.
#[verifier::external_body]
fn parse_version(text: &str) -> (r: Option<String>)
    ensures
        string_view(r) == parsed_version(text@),
{
    semver::Version::parse(text).ok().map(|v| v.to_string())
}

/// Names the order that semantic versions have, on their texts.
pub uninterp spec fn version_precedes(a: Seq<char>, b: Seq<char>) -> bool;

/// `<semver::Version as PartialOrd>::lt` on two version texts; a text that is no
/// version precedes nothing and follows nothing.
#[verifier::external_body]
fn precedes(a: &str, b: &str) -> (r: bool)
    ensures
        r == version_precedes(a@, b@),
{
    match (semver::Version::parse(a), semver::Version::parse(b)) {
        (Ok(x), Ok(y)) => x < y,
        _ => false,
    }
}

/// The first of the words that is a version.
pub open spec fn first_version(tokens: Seq<Seq<char>>) -> Option<Seq<char>>
    decreases tokens.len(),
{
    if tokens.len() == 0 {
        None
    } else {
        match parsed_version(tokens[0]) {
            Some(v) => Some(v),
            None => first_version(tokens.drop_first()),
        }
    }
}

/// The outcome of reading a version out of a program's output.
pub open spec fn version_outcome(output: Seq<char>, r: Result<String, String>) -> bool {
    match first_version(words(output)) {
        Some(v) => match r {
            Ok(s) => s@ == v,
            Err(_) => false,
        },
        None => match r {
            Err(e) => e@ == "no version in `zenmon --version` output: "@ + debug_form(output),
            Ok(_) => false,
        },
    }
}

/// The first token of `zenmon --version` output that is a version — the same
/// tolerance the CLI's own staged-update self-check applies.
pub fn version_of(output: &str) -> (r: Result<String, String>)
    ensures
        version_outcome(output@, r),
{
    let tokens = split_words(output);
    let ghost all = texts(tokens@);
    let mut i: usize = 0;
    assert(all.skip(0) =~= all);
    while i < tokens.len()
        invariant
            i <= tokens.len(),
            all == texts(tokens@),
            all == words(output@),
            first_version(all) == first_version(all.skip(i as int)),
        decreases tokens.len() - i,
    {
        assert(all.skip(i as int)[0] == tokens@[i as int]@);
        if let Some(v) = parse_version(tokens[i].as_str()) {
            return Ok(v);
        }
        assert(all.skip(i as int).drop_first() =~= all.skip(i as int + 1));
        i += 1;
    }
    Err(cat("no version in `zenmon --version` output: ", debug_quoted(output).as_str()))
}

/// The CLI that the installer put next to the tray binary, if any.
///
/// Dev builds always answer "none": there, the neighbour would be a debug build, and
/// offering to put its directory on the user PATH is a trap, not a feature.
pub fn bundled_cli(dev: bool, neighbour: Option<String>) -> (r: Option<String>)
    ensures
        string_view(r) == (if dev {
            None
        } else {
            string_view(neighbour)
        }),
{
    if dev {
        None
    } else {
        neighbour
    }
}

/// Which CLI the tray speaks of: the first one on PATH, or the bundled copy where
/// only the registry knows about it yet. The flag says that it is the latter.
pub fn resolve(
    on_path: Option<String>,
    bundled: Option<&str>,
    user_path_has_bundled: bool,
) -> (r: (Option<String>, bool))
    ensures
        on_path is Some ==> string_view(r.0) == string_view(on_path) && !r.1,
        on_path is None && bundled is Some && user_path_has_bundled ==> string_view(r.0)
            == text_view(bundled) && r.1,
        on_path is None && !(bundled is Some && user_path_has_bundled) ==> r.0 is None && !r.1,
{
    match on_path {
        Some(p) => (Some(p), false),
        None => match bundled {
            Some(b) => if user_path_has_bundled {
                (Some(b.to_owned()), true)
            } else {
                (None, false)
            },
            None => (None, false),
        },
    }
}

/// A copy of an optional text.
fn owned(s: Option<&str>) -> (r: Option<String>)
    ensures
        string_view(r) == text_view(s),
{
    match s {
        Some(s) => Some(s.to_owned()),
        None => None,
    }
}

/// Where the CLI stands relative to this tray, from what was found out about it.
/// Every "can't tell" collapses into "not installed" plus whatever *is* known.
pub fn status(
    tray_version: &str,
    path: Option<&str>,
    version: Option<&str>,
    managed_by: Option<&str>,
    bundled_available: bool,
    pending_path: bool,
) -> (s: CliStatus)
    ensures
        s@ == (CliModel {
            tray_version: tray_version@,
            path: text_view(path),
            version: text_view(version),
            managed_by: text_view(managed_by),
            bundled_available,
            pending_path,
            update_available: version is Some && version_precedes(version->0@, tray_version@),
        }),
{
    let update_available = match version {
        Some(v) => precedes(v, tray_version),
        None => false,
    };
    CliStatus {
        tray_version: tray_version.to_owned(),
        path: owned(path),
        version: owned(version),
        managed_by: owned(managed_by),
        bundled_available,
        pending_path,
        update_available,
    }
}

/// What a failed run is reported as: the end of what it wrote to its error
/// output, or to its output where that was blank.
pub open spec fn failure_text(
    exe: Seq<char>,
    args: Seq<Seq<char>>,
    exit: Seq<char>,
    stdout: Seq<char>,
    stderr: Seq<char>,
) -> Seq<char> {
    let detail = if trimmed(stderr).len() == 0 {
        stdout
    } else {
        stderr
    };
    "`"@ + exe + " "@ + spaced(args) + "` failed ("@ + exit + "): "@ + tail_of(trimmed(detail), 500)
}

/// The report of a failed run. The CLI reports its errors on one meaningful
/// line; the tail is kept in case something chattier ran first.
pub fn failure_message(
    exe: &str,
    args: &Vec<String>,
    exit: &str,
    stdout: &str,
    stderr: &str,
) -> (s: String)
    ensures
        s@ == failure_text(exe@, texts(args@), exit@, stdout@, stderr@),
{
    let detail = if trim(stderr).as_str().is_empty() {
        stdout
    } else {
        stderr
    };
    let end = tail(trim(detail).as_str(), 500);
    let mut s = cat4("`", exe, " ", join_spaced(args).as_str());
    s.append("` failed (");
    s.append(exit);
    s.append("): ");
    s.append(end.as_str());
    s
}

/// Why the CLI cannot be installed, if it cannot: only installer builds carry
/// one.
pub fn require_bundled(bundled: Option<&str>) -> (r: Result<String, String>)
    ensures
        match bundled {
            Some(b) => match r {
                Ok(s) => s@ == b@,
                Err(_) => false,
            },
            None => match r {
                Err(e) => e@
                    == "no bundled zenmon CLI next to the tray binary — only installer builds carry one (dev builds never offer this)"@,
                Ok(_) => false,
            },
        },
{
    match bundled {
        Some(b) => Ok(b.to_owned()),
        None => Err(
            "no bundled zenmon CLI next to the tray binary — only installer builds carry one (dev builds never offer this)".to_owned(),
        ),
    }
}

/// Whether the CLI's own updater may run: it has to be on PATH, and not the copy
/// that updates with the tray.
pub fn may_update(on_path: Option<&str>, managed_by: &str) -> (r: Result<String, String>)
    ensures
        match on_path {
            None => match r {
                Err(e) => e@ == "zenmon CLI not found on PATH"@,
                Ok(_) => false,
            },
            Some(p) => if managed_by@ == "tray"@ {
                match r {
                    Err(e) => e@
                        == "this zenmon is the copy bundled with zenmon-tray — it is replaced by \"Update\" above, in the same step as the tray itself"@,
                    Ok(_) => false,
                }
            } else {
                match r {
                    Ok(s) => s@ == p@,
                    Err(_) => false,
                }
            },
        },
{
    match on_path {
        None => Err("zenmon CLI not found on PATH".to_owned()),
        Some(p) => {
            if same(managed_by, "tray") {
                Err(
                    "this zenmon is the copy bundled with zenmon-tray — it is replaced by \"Update\" above, in the same step as the tray itself".to_owned(),
                )
            } else {
                Ok(p.to_owned())
            }
        },
    }
}

/// The last of the lines that is not blank.
pub open spec fn last_written(lines: Seq<Seq<char>>) -> Option<Seq<char>>
    decreases lines.len(),
{
    if lines.len() == 0 {
        None
    } else if trimmed(lines.last()).len() > 0 {
        Some(lines.last())
    } else {
        last_written(lines.drop_last())
    }
}

/// The line that carries the updater's answer: the last one of its output that
/// is not blank.
pub fn answer_line(stdout: &str) -> (r: Result<String, String>)
    ensures
        match last_written(lines_of(stdout@)) {
            Some(l) => match r {
                Ok(s) => s@ == l,
                Err(_) => false,
            },
            None => match r {
                Err(e) => e@ == "zenmon update produced no output"@,
                Ok(_) => false,
            },
        },
{
    let lines = split_lines(stdout);
    let ghost all = texts(lines@);
    let mut n: usize = lines.len();
    assert(all.take(n as int) =~= all);
    while n > 0
        invariant
            n <= lines.len(),
            all == texts(lines@),
            all == lines_of(stdout@),
            last_written(all) == last_written(all.take(n as int)),
        decreases n,
    {
        assert(all.take(n as int).last() == lines@[n as int - 1]@);
        if !trim(lines[n - 1].as_str()).as_str().is_empty() {
            return Ok(lines[n - 1].clone());
        }
        assert(all.take(n as int).drop_last() =~= all.take(n as int - 1));
        n -= 1;
    }
    Err("zenmon update produced no output".to_owned())
}

/// Names what reading a text as JSON gives: the document's compact text, or what
/// the parser says where the text is no document.
pub uninterp spec fn json_reading(text: Seq<char>) -> Result<Seq<char>, Seq<char>>;

/// A result of two texts, by their characters.
pub open spec fn result_view(r: Result<String, String>) -> Result<Seq<char>, Seq<char>> {
    match r {
        Ok(s) => Ok(s@),
        Err(e) => Err(e@),
    }
}

/// `serde_json::from_str` into a `serde_json::Value`, with the value, or the error,
/// written out by its `Display`. Which texts are documents is not stated.
#[verifier::external_body]
fn read_json(text: &str) -> (r: Result<String, String>)
    ensures
        result_view(r) == json_reading(text@),
{
    serde_json::from_str::<serde_json::Value>(text).map(|v| v.to_string()).map_err(|e| e.to_string())
}

/// The updater's verdict, from the line that carries it and what reading that line
/// as JSON gave.
pub open spec fn verdict(
    line: Seq<char>,
    reading: Result<Seq<char>, Seq<char>>,
) -> Result<Seq<char>, Seq<char>> {
    match reading {
        Ok(document) => Ok(document),
        Err(why) => Err("unparseable zenmon update output ("@ + why + "): "@ + line),
    }
}

/// The updater's verdict, from the line that carries it and what reading that line
/// as JSON gave. A line that is no JSON is reported whole.
pub fn verdict_of(line: &str, reading: Result<String, String>) -> (r: Result<String, String>)
    ensures
        result_view(r) == verdict(line@, result_view(reading)),
{
    match reading {
        Ok(document) => Ok(document),
        Err(why) => Err(cat4("unparseable zenmon update output (", why.as_str(), "): ", line)),
    }
}

/// What the updater answered: the document on the last line of its output that is
/// not blank, as it stands.
pub fn updater_answer(stdout: &str) -> (r: Result<String, String>)
    ensures
        result_view(r) == (match last_written(lines_of(stdout@)) {
            Some(line) => verdict(line, json_reading(trimmed(line))),
            None => Err("zenmon update produced no output"@),
        }),
{
    match answer_line(stdout) {
        Ok(line) => {
            let reading = read_json(trim(line.as_str()).as_str());
            verdict_of(line.as_str(), reading)
        },
        Err(e) => Err(e),
    }
}

/// Whether one of the PATH entries is the directory.
pub open spec fn listed(entries: Seq<Seq<char>>, dir: Seq<char>) -> bool {
    exists|i: int| 0 <= i < entries.len() && folded_dir(#[trigger] entries[i]) == folded_dir(dir)
}

/// Whether one of the user's PATH entries is the directory.
pub fn user_path_contains(entries: &Vec<String>, dir: &str) -> (r: bool)
    ensures
        r == listed(texts(entries@), dir@),
{
    let ghost all = texts(entries@);
    let mut i: usize = 0;
    while i < entries.len()
        invariant
            i <= entries.len(),
            all == texts(entries@),
            forall|k: int| 0 <= k < i ==> folded_dir(#[trigger] all[k]) != folded_dir(dir@),
        decreases entries.len() - i,
    {
        assert(all[i as int] == entries@[i as int]@);
        if same_dir(entries[i].as_str(), dir) {
            return true;
        }
        i += 1;
    }
    false
}

/// The PATH value with a directory appended.
pub open spec fn extended_path(current: Seq<char>, dir: Seq<char>) -> Seq<char> {
    let kept = stripped_end(current, |c: char| c == ';');
    if trimmed(kept).len() == 0 {
        dir
    } else {
        kept + ";"@ + dir
    }
}

/// The user PATH value to write so that it holds the directory, given the value
/// and the entries it has now. `None` where it holds it already.
pub fn add_to_user_path(current: &str, entries: &Vec<String>, dir: &str) -> (r: Option<String>)
    ensures
        string_view(r) == (if listed(texts(entries@), dir@) {
            None
        } else {
            Some(extended_path(current@, dir@))
        }),
{
    if user_path_contains(entries, dir) {
        return None;
    }
    let mut n: usize = current.unicode_len();
    let ghost p = |c: char| c == ';';
    assert(current@.take(n as int) =~= current@);
    while n > 0 && current.get_char(n - 1) == ';'
        invariant
            n <= current@.len(),
            p == |c: char| c == ';',
            stripped_end(current@, p) == stripped_end(current@.take(n as int), p),
        decreases n,
    {
        assert(current@.take(n as int).drop_last() =~= current@.take(n as int - 1));
        assert(current@.take(n as int).last() == current@[n as int - 1]);
        n -= 1;
    }
    proof {
        if n > 0 {
            assert(current@.take(n as int).last() == current@[n as int - 1]);
            assert(!p(current@.take(n as int).last()));
        }
        assert(current@.subrange(0, n as int) =~= current@.take(n as int));
    }
    let kept = current.substring_char(0, n);
    if trim(kept).as_str().is_empty() {
        Some(dir.to_owned())
    } else {
        Some(cat3(kept, ";", dir))
    }
}

} // verus!
