//! Linux-family discovery: the freedesktop.org HTTP-handler convention.
//!
//! Handler identifiers come from `mimeinfo.cache` files (key=value lines);
//! matching desktop-entry files yield a `Name=` and an `Exec=` line; the raw
//! `Exec=` command is resolved into a best-effort launchable path. The caller
//! reads the files and runs the `PATH` lookup; every decision taken on that
//! text is made, and verified, here.

use vstd::prelude::*;

use crate::text::before_sub;
use crate::text::chars_of_str;
use crate::text::eq_chars;
use crate::text::find_sub_chars;
use crate::text::first_with_prefix;
use crate::text::first_with_prefix_vec;
use crate::text::lines_vec;
use crate::text::remove_pair;
use crate::text::remove_pair_chars;
use crate::text::seqs_of;
use crate::text::spec_lines;
use crate::text::split_char;
use crate::text::split_char_vec;
use crate::text::split_ws;
use crate::text::split_ws_vec;
use crate::text::string_of_chars;
use crate::text::trim_chars;
use crate::text::trim_spec;
use crate::Browser;
use crate::BrowserError;
use crate::BrowserV;
use crate::str_views;

verus! {

/// One attempt to read a handler-cache file: the location does not exist, or
/// it exists but reading failed, or its text.
pub enum CacheRead {
    Missing,
    Unreadable,
    Content(String),
}

/// A `key=` line head whose key is the HTTP-protocol-handler MIME type: a
/// line matches exactly when the text before its first `=` is that key.
pub open spec fn http_handler_key_eq() -> Seq<char> {
    "x-scheme-handler/http="@
}

/// The handler identifiers declared by one cache file: the value of the
/// first line whose key is exactly the HTTP-handler MIME type — everything
/// after the line's first `=` — split on `;`. A file without such a line
/// declares nothing.
pub open spec fn mimeinfo_handlers(content: Seq<char>) -> Seq<Seq<char>> {
    match first_with_prefix(spec_lines(content), http_handler_key_eq()) {
        None => Seq::<Seq<char>>::empty(),
        Some(line) => split_char(
            line.subrange(http_handler_key_eq().len() as int, line.len() as int),
            ';',
        ),
    }
}

/// Appends to `installed_browsers` every handler identifier that `content`
/// declares for the HTTP scheme.
pub fn extract_browsers_from_mimeinfo(content: &str, installed_browsers: &mut Vec<String>)
    ensures
        str_views(final(installed_browsers)@) == str_views(old(installed_browsers)@)
            + mimeinfo_handlers(content@),
{
    let ghost s0 = str_views(old(installed_browsers)@);
    let chars = chars_of_str(content);
    let lines = lines_vec(chars.as_slice());
    let key = chars_of_str("x-scheme-handler/http=");
    match first_with_prefix_vec(&lines, key.as_slice()) {
        None => {
            proof {
                assert(str_views(installed_browsers@) =~= s0 + mimeinfo_handlers(content@));
            }
        },
        Some(k) => {
            let line = &lines[k];
            let value = vstd::slice::slice_subrange(line.as_slice(), key.len(), line.len());
            let items = split_char_vec(value, ';');
            let ghost handlers = mimeinfo_handlers(content@);
            proof {
                assert(handlers == seqs_of(items@));
                assert(seqs_of(items@).len() == items@.len());
            }
            let m = items.len();
            let mut j: usize = 0;
            while j < m
                invariant
                    j <= m == items@.len(),
                    handlers == seqs_of(items@),
                    str_views(installed_browsers@) == s0 + handlers.subrange(0, j as int),
                decreases m - j,
            {
                let ghost prev = installed_browsers@;
                installed_browsers.push(string_of_chars(items[j].as_slice()));
                proof {
                    assert(items@[j as int]@ == handlers[j as int]);
                    assert forall|k2: int| 0 <= k2 < prev.len() implies str_views(prev)[k2]
                        == prev[k2]@ by {}
                    assert(str_views(installed_browsers@) =~= str_views(prev).push(
                        handlers[j as int],
                    ));
                    assert(str_views(prev).push(handlers[j as int]) =~= s0 + handlers.subrange(
                        0,
                        j + 1 as int,
                    ));
                }
                j += 1;
            }
            proof {
                assert(handlers.subrange(0, m as int) =~= handlers);
            }
        },
    }
}

/// `true` when some read of `reads` found a file that exists but could not
/// be read; the only fatal condition of the cache scan.
pub open spec fn any_unreadable(reads: Seq<CacheRead>) -> bool {
    exists|i: int| 0 <= i < reads.len() && reads[i] is Unreadable
}

/// All handler identifiers of the readable cache files, in read order.
pub open spec fn handlers_of_reads(reads: Seq<CacheRead>) -> Seq<Seq<char>>
    decreases reads.len(),
{
    if reads.len() == 0 {
        Seq::<Seq<char>>::empty()
    } else {
        let rest = handlers_of_reads(reads.drop_last());
        match reads.last() {
            CacheRead::Content(c) => rest + mimeinfo_handlers(c@),
            _ => rest,
        }
    }
}

/// Collects the handler identifiers of every candidate cache file. A missing
/// file contributes nothing; one that exists but cannot be read fails the
/// whole scan with an I/O error.
pub fn find_installed_browsers(cache_reads: &Vec<CacheRead>) -> (r: Result<
    Vec<String>,
    BrowserError,
>)
    ensures
        r is Err <==> any_unreadable(cache_reads@),
        r is Err ==> r->Err_0 == BrowserError::Io,
        r is Ok ==> str_views(r->Ok_0@) == handlers_of_reads(cache_reads@),
{
    let n = cache_reads.len();
    let mut acc: Vec<String> = Vec::new();
    proof {
        assert(str_views(acc@) =~= handlers_of_reads(cache_reads@.subrange(0, 0)));
    }
    let mut i: usize = 0;
    while i < n
        invariant
            i <= n == cache_reads@.len(),
            str_views(acc@) == handlers_of_reads(cache_reads@.subrange(0, i as int)),
            forall|j: int| 0 <= j < i ==> !(cache_reads@[j] is Unreadable),
        decreases n - i,
    {
        let ghost pre = cache_reads@.subrange(0, i as int);
        let ghost pre1 = cache_reads@.subrange(0, i + 1 as int);
        proof {
            assert(pre1.drop_last() =~= pre);
            assert(pre1.last() == cache_reads@[i as int]);
        }
        match &cache_reads[i] {
            CacheRead::Missing => {},
            CacheRead::Unreadable => {
                assert(any_unreadable(cache_reads@));
                return Err(BrowserError::Io);
            },
            CacheRead::Content(c) => {
                extract_browsers_from_mimeinfo(c.as_str(), &mut acc);
            },
        }
        i += 1;
    }
    proof {
        assert(cache_reads@.subrange(0, n as int) =~= cache_reads@);
    }
    Ok(acc)
}

/// The raw command with the `%u` and `%U` placeholder tokens removed.
pub open spec fn sanitize_spec(s: Seq<char>) -> Seq<char> {
    remove_pair(remove_pair(s, '%', 'u'), '%', 'U')
}

/// Strips the freedesktop `%u` and `%U` field codes from an `Exec=` value.
pub fn sanitize_exec_path(exec_path: String) -> (r: String)
    ensures
        r@ == sanitize_spec(exec_path@),
{
    let v = chars_of_str(exec_path.as_str());
    let v1 = remove_pair_chars(v.as_slice(), '%', 'u');
    let v2 = remove_pair_chars(v1.as_slice(), '%', 'U');
    string_of_chars(v2.as_slice())
}

/// The containerized-launcher command up to its `@@` argument-separator
/// suffix, trimmed.
pub open spec fn flatpak_cut_spec(s: Seq<char>) -> Seq<char> {
    trim_spec(before_sub(s, "@@"@))
}

/// Cuts a containerized-launcher command at the first `@@` argument
/// separator and trims the remainder.
pub fn sanitize_flatpak_exec(exec_command: String) -> (r: String)
    ensures
        r@ == flatpak_cut_spec(exec_command@),
{
    let v = chars_of_str(exec_command.as_str());
    let pat = chars_of_str("@@");
    let cut: Vec<char> = match find_sub_chars(v.as_slice(), pat.as_slice()) {
        Some(k) => vstd::slice::slice_to_vec(vstd::slice::slice_subrange(v.as_slice(), 0, k)),
        None => v,
    };
    let t = trim_chars(cut.as_slice());
    string_of_chars(t.as_slice())
}

/// The value of the first line of `content` that starts with `p`: that line
/// with the one leading occurrence of `p` stripped; `None` when no line has
/// the prefix.
pub open spec fn extract_field(p: Seq<char>, content: Seq<char>) -> Option<Seq<char>> {
    match first_with_prefix(spec_lines(content), p) {
        None => None,
        Some(l) => Some(l.subrange(p.len() as int, l.len() as int)),
    }
}

/// Computes [`extract_field`]: the first `prefix` line of a desktop-entry
/// file, with the prefix stripped once.
pub fn extract_field_from_desktop_file(prefix: &str, content: &str) -> (r: Option<String>)
    ensures
        match r {
            Some(s) => extract_field(prefix@, content@) == Some(s@),
            None => extract_field(prefix@, content@) is None,
        },
{
    let chars = chars_of_str(content);
    let lines = lines_vec(chars.as_slice());
    let p = chars_of_str(prefix);
    match first_with_prefix_vec(&lines, p.as_slice()) {
        None => None,
        Some(k) => {
            let line = &lines[k];
            let value = vstd::slice::slice_subrange(line.as_slice(), p.len(), line.len());
            Some(string_of_chars(value))
        },
    }
}

/// The command invokes the containerized-application launcher with its
/// `run` subcommand and at least one further token.
pub open spec fn flatpak_run_prefix(s: Seq<char>) -> bool {
    let ts = split_ws(s);
    ts.len() > 2 && ts[0] == "/usr/bin/flatpak"@ && ts[1] == "run"@
}

/// The first token at or after position `k` that is non-empty and is not an
/// option (does not start with `-`), or `-1`.
pub open spec fn first_app_token(ts: Seq<Seq<char>>, k: int) -> int
    decreases ts.len() - k,
    when 0 <= k <= ts.len()
{
    if k >= ts.len() {
        -1
    } else if ts[k].len() > 0 && ts[k][0] != '-' {
        k
    } else {
        first_app_token(ts, k + 1)
    }
}

/// The application identifier of a containerized-launcher command: the first
/// non-option token after the launcher and its subcommand, taken from the
/// command cut at `@@`; the whole cut command when no such token remains.
pub open spec fn flatpak_id_spec(s: Seq<char>) -> Seq<char> {
    let cut = flatpak_cut_spec(s);
    let ts = split_ws(cut);
    let start: int = if ts.len() >= 2 {
        2
    } else {
        ts.len() as int
    };
    let k = first_app_token(ts, start);
    if k >= 0 {
        ts[k]
    } else {
        cut
    }
}

/// A path is absolute when it starts at the filesystem root.
pub open spec fn is_absolute_path(s: Seq<char>) -> bool {
    s.len() > 0 && s[0] == '/'
}

/// The resolved launchable path for a raw `Exec=` command, given the result
/// of the caller's `PATH` lookup for a relative command: placeholders are
/// stripped; a containerized-launcher invocation resolves to its application
/// identifier; an absolute path stands as it is; a relative command takes
/// the trimmed lookup output, or stands unresolved when the lookup failed.
pub open spec fn resolve_exec_spec(s: Seq<char>, lookup: Option<Seq<char>>) -> Seq<char> {
    let clean = sanitize_spec(s);
    if flatpak_run_prefix(clean) {
        flatpak_id_spec(clean)
    } else {
        let t = trim_spec(clean);
        if is_absolute_path(t) {
            t
        } else {
            match lookup {
                Some(out) => trim_spec(out),
                None => t,
            }
        }
    }
}

/// Computes [`resolve_exec_spec`]. `path_lookup` is the standard output of
/// the caller's `PATH` lookup utility, present only when the lookup ran and
/// succeeded; it is consulted only for a relative command.
pub fn resolve_executable_path(exec_command: String, path_lookup: &Option<String>) -> (r: String)
    ensures
        r@ == resolve_exec_spec(exec_command@, crate::opt_view(*path_lookup)),
{
    let cleaned = sanitize_exec_path(exec_command);
    let v = chars_of_str(cleaned.as_str());
    let toks = split_ws_vec(v.as_slice());
    proof {
        assert(seqs_of(toks@).len() == toks@.len());
    }
    let flat = chars_of_str("/usr/bin/flatpak");
    let run = chars_of_str("run");
    if toks.len() > 2 && eq_chars(toks[0].as_slice(), flat.as_slice()) && eq_chars(
        toks[1].as_slice(),
        run.as_slice(),
    ) {
        proof {
            assert(seqs_of(toks@)[0] == toks@[0]@);
            assert(seqs_of(toks@)[1] == toks@[1]@);
            assert(flatpak_run_prefix(cleaned@));
        }
        let cut_s = sanitize_flatpak_exec(cleaned.clone());
        let cv = chars_of_str(cut_s.as_str());
        let ctoks = split_ws_vec(cv.as_slice());
        let ghost ts = split_ws(flatpak_cut_spec(cleaned@));
        proof {
            assert(ts == seqs_of(ctoks@));
            assert(ts.len() == ctoks@.len());
        }
        let m = ctoks.len();
        if m < 2 {
            return cut_s;
        }
        let mut k: usize = 2;
        while k < m
            invariant
                2 <= k <= m == ts.len(),
                ts == seqs_of(ctoks@),
                first_app_token(ts, 2) == first_app_token(ts, k as int),
                cleaned@ == sanitize_spec(exec_command@),
                flatpak_run_prefix(cleaned@),
                ts == split_ws(flatpak_cut_spec(cleaned@)),
            decreases m - k,
        {
            let tok = &ctoks[k];
            proof {
                assert(ts[k as int] == ctoks@[k as int]@);
            }
            if tok.len() > 0 && tok[0] != '-' {
                proof {
                    assert(first_app_token(ts, k as int) == k as int);
                }
                return string_of_chars(tok.as_slice());
            }
            k += 1;
        }
        cut_s
    } else {
        proof {
            assert(!flatpak_run_prefix(cleaned@));
        }
        let t = trim_chars(v.as_slice());
        if t.len() > 0 && t[0] == '/' {
            string_of_chars(t.as_slice())
        } else {
            match path_lookup {
                Some(out) => {
                    let ov = chars_of_str(out.as_str());
                    let ot = trim_chars(ov.as_slice());
                    string_of_chars(ot.as_slice())
                },
                None => string_of_chars(t.as_slice()),
            }
        }
    }
}

/// The argument a caller should hand to the `PATH` lookup utility for a raw
/// `Exec=` command — the cleaned, trimmed command — or `None` when
/// resolution wants no lookup: the command is a containerized-launcher
/// invocation, or it is already absolute.
pub fn lookup_argument(exec_command: String) -> (r: Option<String>)
    ensures
        ({
            let clean = sanitize_spec(exec_command@);
            let t = trim_spec(clean);
            match r {
                Some(a) => !flatpak_run_prefix(clean) && !is_absolute_path(t) && a@ == t,
                None => flatpak_run_prefix(clean) || is_absolute_path(t),
            }
        }),
{
    let cleaned = sanitize_exec_path(exec_command);
    let v = chars_of_str(cleaned.as_str());
    let toks = split_ws_vec(v.as_slice());
    proof {
        assert(seqs_of(toks@).len() == toks@.len());
    }
    let flat = chars_of_str("/usr/bin/flatpak");
    let run = chars_of_str("run");
    if toks.len() > 2 && eq_chars(toks[0].as_slice(), flat.as_slice()) && eq_chars(
        toks[1].as_slice(),
        run.as_slice(),
    ) {
        proof {
            assert(seqs_of(toks@)[0] == toks@[0]@);
            assert(seqs_of(toks@)[1] == toks@[1]@);
        }
        return None;
    }
    proof {
        assert(!flatpak_run_prefix(cleaned@));
    }
    let t = trim_chars(v.as_slice());
    if t.len() > 0 && t[0] == '/' {
        None
    } else {
        Some(string_of_chars(t.as_slice()))
    }
}

/// The browser a desktop-entry file's text describes: its first `Name=`
/// value, and its first `Exec=` value resolved to a launchable path; `None`
/// when either line is absent.
pub open spec fn parse_entry_spec(content: Seq<char>, lookup: Option<Seq<char>>) -> Option<
    BrowserV,
> {
    let name = extract_field("Name="@, content);
    let cmd = extract_field("Exec="@, content);
    if name is Some && cmd is Some {
        Some(
            BrowserV {
                name: name->Some_0,
                exec_path: resolve_exec_spec(cmd->Some_0, lookup),
            },
        )
    } else {
        None
    }
}

/// Computes [`parse_entry_spec`] on one entry file's text.
pub fn parse_desktop_entry(content: &str, path_lookup: &Option<String>) -> (r: Option<Browser>)
    ensures
        match r {
            Some(b) => parse_entry_spec(content@, crate::opt_view(*path_lookup)) == Some(b@),
            None => parse_entry_spec(content@, crate::opt_view(*path_lookup)) is None,
        },
{
    let name = match extract_field_from_desktop_file("Name=", content) {
        Some(n) => n,
        None => {
            return None;
        },
    };
    let cmd = match extract_field_from_desktop_file("Exec=", content) {
        Some(e) => e,
        None => {
            return None;
        },
    };
    Some(Browser { name, exec_path: resolve_executable_path(cmd, path_lookup) })
}

/// One file seen while scanning a desktop-entry directory: its bare name,
/// its text if it could be read, and the caller's `PATH`-lookup output for
/// this entry's relative command, if the lookup ran and succeeded.
pub struct DesktopFileData {
    pub file_name: String,
    pub content: Option<String>,
    pub path_lookup: Option<String>,
}

/// The browser one directory entry contributes: only a readable file whose
/// name is a registered handler identifier is parsed.
pub open spec fn entry_browser(names: Seq<Seq<char>>, f: DesktopFileData) -> Option<BrowserV> {
    if names.contains(f.file_name@) && f.content is Some {
        parse_entry_spec(f.content->Some_0@, crate::opt_view(f.path_lookup))
    } else {
        None
    }
}

/// The browsers one directory's files contribute, in directory order.
pub open spec fn dir_browsers(names: Seq<Seq<char>>, files: Seq<DesktopFileData>) -> Seq<BrowserV>
    decreases files.len(),
{
    if files.len() == 0 {
        Seq::<BrowserV>::empty()
    } else {
        let rest = dir_browsers(names, files.drop_last());
        match entry_browser(names, files.last()) {
            Some(b) => rest.push(b),
            None => rest,
        }
    }
}

/// The browsers all scanned directories contribute, in scan order.
pub open spec fn dirs_browsers(names: Seq<Seq<char>>, dirs: Seq<Vec<DesktopFileData>>) -> Seq<
    BrowserV,
>
    decreases dirs.len(),
{
    if dirs.len() == 0 {
        Seq::<BrowserV>::empty()
    } else {
        dirs_browsers(names, dirs.drop_last()) + dir_browsers(names, dirs.last()@)
    }
}

/// Decides membership of `fname` in `names`.
fn contains_name(names: &Vec<String>, fname: &String) -> (r: bool)
    ensures
        r == str_views(names@).contains(fname@),
{
    let n = names.len();
    proof {
        assert(str_views(names@).len() == n);
    }
    let mut i: usize = 0;
    while i < n
        invariant
            i <= n == names@.len() == str_views(names@).len(),
            forall|j: int| 0 <= j < i ==> str_views(names@)[j] != fname@,
        decreases n - i,
    {
        proof {
            assert(str_views(names@)[i as int] == names@[i as int]@);
        }
        if names[i] == *fname {
            assert(str_views(names@).contains(fname@));
            return true;
        }
        i += 1;
    }
    false
}

/// Parses every directory entry whose file name is a registered handler
/// identifier and deduplicates the parsed browsers by display name, a later
/// entry overwriting an earlier one of the same name.
pub fn resolve_browser_exec_paths(browser_names: &Vec<String>, dirs: &Vec<Vec<DesktopFileData>>)
    -> (r: Vec<Browser>)
    ensures
        crate::views_of(r@) == crate::dedup_by_name(
            dirs_browsers(str_views(browser_names@), dirs@),
        ),
{
    let ghost nv = str_views(browser_names@);
    let nd = dirs.len();
    let mut out: Vec<Browser> = Vec::new();
    proof {
        assert(crate::views_of(out@) =~= crate::dedup_by_name(
            dirs_browsers(nv, dirs@.subrange(0, 0)),
        ));
    }
    let mut d: usize = 0;
    while d < nd
        invariant
            d <= nd == dirs@.len(),
            nv == str_views(browser_names@),
            crate::views_of(out@) == crate::dedup_by_name(
                dirs_browsers(nv, dirs@.subrange(0, d as int)),
            ),
        decreases nd - d,
    {
        let ghost before = dirs_browsers(nv, dirs@.subrange(0, d as int));
        let files = &dirs[d];
        let nf = files.len();
        proof {
            assert(files@.subrange(0, 0) =~= Seq::<DesktopFileData>::empty());
            assert(before + dir_browsers(nv, files@.subrange(0, 0)) =~= before);
        }
        let mut j: usize = 0;
        while j < nf
            invariant
                j <= nf == files@.len(),
                nv == str_views(browser_names@),
                files@ == dirs@[d as int]@,
                before == dirs_browsers(nv, dirs@.subrange(0, d as int)),
                d < dirs@.len(),
                crate::views_of(out@) == crate::dedup_by_name(
                    before + dir_browsers(nv, files@.subrange(0, j as int)),
                ),
            decreases nf - j,
        {
            let ghost fpre = files@.subrange(0, j as int);
            let ghost fpre1 = files@.subrange(0, j + 1 as int);
            proof {
                assert(fpre1.drop_last() =~= fpre);
                assert(fpre1.last() == files@[j as int]);
            }
            let f = &files[j];
            let is_known = contains_name(browser_names, &f.file_name);
            let mut parsed: Option<Browser> = None;
            if is_known {
                match &f.content {
                    Some(c) => {
                        parsed = parse_desktop_entry(c.as_str(), &f.path_lookup);
                    },
                    None => {},
                }
            }
            match parsed {
                Some(b) => {
                    proof {
                        assert(entry_browser(nv, files@[j as int]) == Some(b@));
                        assert(dir_browsers(nv, fpre1) == dir_browsers(nv, fpre).push(b@));
                        let y = before + dir_browsers(nv, fpre);
                        assert(y.push(b@).drop_last() =~= y);
                        assert(crate::dedup_by_name(y.push(b@)) == crate::insert_by_name(
                            crate::dedup_by_name(y),
                            b@,
                        ));
                        assert(before + dir_browsers(nv, fpre1) =~= y.push(b@));
                    }
                    crate::insert_browser(&mut out, b);
                },
                None => {
                    proof {
                        assert(entry_browser(nv, files@[j as int]) is None);
                        assert(dir_browsers(nv, fpre1) == dir_browsers(nv, fpre));
                    }
                },
            }
            j += 1;
        }
        proof {
            assert(files@.subrange(0, nf as int) =~= files@);
            let pre1 = dirs@.subrange(0, d + 1 as int);
            assert(pre1.drop_last() =~= dirs@.subrange(0, d as int));
            assert(pre1.last() == dirs@[d as int]);
            assert(before + dir_browsers(nv, files@) == dirs_browsers(nv, pre1));
        }
        d += 1;
    }
    proof {
        assert(dirs@.subrange(0, nd as int) =~= dirs@);
    }
    out
}

/// Everything one Linux discovery pass reads from the outside world: the
/// candidate handler-cache files in scan order, and the files of each
/// scanned desktop-entry directory in scan order.
pub struct LinuxScan {
    pub cache_reads: Vec<CacheRead>,
    pub dirs: Vec<Vec<DesktopFileData>>,
}

/// The deduplicated browsers a Linux scan yields.
pub open spec fn linux_browsers(scan: LinuxScan) -> Seq<BrowserV> {
    crate::dedup_by_name(dirs_browsers(handlers_of_reads(scan.cache_reads@), scan.dirs@))
}

/// Full Linux discovery over one scan's data: handler identifiers from the
/// cache files, then parsing and name-keyed deduplication of the matching
/// desktop entries. Fails only when a cache file exists but is unreadable.
pub fn get_browsers(scan: &LinuxScan) -> (r: Result<Vec<Browser>, BrowserError>)
    ensures
        r is Err <==> any_unreadable(scan.cache_reads@),
        r is Err ==> r->Err_0 == BrowserError::Io,
        r is Ok ==> crate::views_of(r->Ok_0@) == linux_browsers(*scan),
{
    let names = match find_installed_browsers(&scan.cache_reads) {
        Ok(ns) => ns,
        Err(e) => {
            return Err(e);
        },
    };
    Ok(resolve_browser_exec_paths(&names, &scan.dirs))
}

/// The candidate handler-cache locations, in scan order: system-wide,
/// Flatpak exports, and per-user under `home` when a home directory is
/// known.
pub fn get_mimeinfo_paths(home: &Option<String>) -> (r: Vec<String>)
    ensures
        (*home) is Some ==> r@.len() == 3,
        (*home) is None ==> r@.len() == 2,
        r@[0]@ == "/usr/share/applications/mimeinfo.cache"@,
        r@[1]@ == "/var/lib/flatpak/exports/share/applications/mimeinfo.cache"@,
        (*home) matches Some(h) ==> r@[2]@ == h@ + "/.local/share/applications/mimeinfo.cache"@,
{
    let mut paths: Vec<String> = Vec::new();
    paths.push(String::from_str("/usr/share/applications/mimeinfo.cache"));
    paths.push(String::from_str("/var/lib/flatpak/exports/share/applications/mimeinfo.cache"));
    match home {
        Some(h) => {
            paths.push(h.clone().concat("/.local/share/applications/mimeinfo.cache"));
        },
        None => {},
    }
    paths
}

/// The candidate desktop-entry directories, in scan order: system-wide,
/// Flatpak exports, and per-user under `home` when a home directory is
/// known.
pub fn get_desktop_paths(home: &Option<String>) -> (r: Vec<String>)
    ensures
        (*home) is Some ==> r@.len() == 3,
        (*home) is None ==> r@.len() == 2,
        r@[0]@ == "/usr/share/applications/"@,
        r@[1]@ == "/var/lib/flatpak/exports/share/applications"@,
        (*home) matches Some(h) ==> r@[2]@ == h@ + "/.local/share/applications/"@,
{
    let mut paths: Vec<String> = Vec::new();
    paths.push(String::from_str("/usr/share/applications/"));
    paths.push(String::from_str("/var/lib/flatpak/exports/share/applications"));
    match home {
        Some(h) => {
            paths.push(h.clone().concat("/.local/share/applications/"));
        },
        None => {},
    }
    paths
}

pub proof fn lemma_no_names_dir_empty(files: Seq<DesktopFileData>)
    ensures
        dir_browsers(Seq::<Seq<char>>::empty(), files) == Seq::<BrowserV>::empty(),
    decreases files.len(),
{
    if files.len() > 0 {
        lemma_no_names_dir_empty(files.drop_last());
    }
}

pub proof fn lemma_no_names_no_browsers(dirs: Seq<Vec<DesktopFileData>>)
    ensures
        dirs_browsers(Seq::<Seq<char>>::empty(), dirs) == Seq::<BrowserV>::empty(),
    decreases dirs.len(),
{
    if dirs.len() > 0 {
        lemma_no_names_no_browsers(dirs.drop_last());
        lemma_no_names_dir_empty(dirs.last()@);
        assert(dirs_browsers(Seq::<Seq<char>>::empty(), dirs) =~= Seq::<BrowserV>::empty());
    }
}

pub proof fn lemma_all_missing_no_handlers(reads: Seq<CacheRead>)
    requires
        forall|i: int| 0 <= i < reads.len() ==> reads[i] is Missing,
    ensures
        handlers_of_reads(reads) == Seq::<Seq<char>>::empty(),
    decreases reads.len(),
{
    if reads.len() > 0 {
        assert(forall|i: int|
            0 <= i < reads.drop_last().len() ==> #[trigger] reads.drop_last()[i] is Missing);
        lemma_all_missing_no_handlers(reads.drop_last());
    }
}

/// Law: when every candidate cache location is missing, discovery is not an
/// error and yields no browsers, whatever the desktop directories hold: no
/// handler is registered, so no file name can match one.
pub proof fn lemma_missing_sources_empty(scan: LinuxScan)
    requires
        forall|i: int| 0 <= i < scan.cache_reads@.len() ==> scan.cache_reads@[i] is Missing,
    ensures
        !any_unreadable(scan.cache_reads@),
        linux_browsers(scan) == Seq::<BrowserV>::empty(),
{
    lemma_all_missing_no_handlers(scan.cache_reads@);
    lemma_no_names_no_browsers(scan.dirs@);
}

} // verus!
