//! Windows discovery: the "Start Menu Internet" registry convention.
//!
//! Each immediate subkey of the client registration key is a candidate
//! browser: its default value is the display name (the subkey name when
//! absent), and the default value of its `shell\open\command` subkey is the
//! open command, from which the executable path is extracted. The caller
//! reads the registry and hands the entries in as plain values; every
//! decision taken on them is made, and verified, here.

use vstd::prelude::*;

use crate::text::chars_of_str;
use crate::text::contains_nocase;
use crate::text::contains_nocase_chars;
use crate::text::seqs_of;
use crate::text::split_char;
use crate::text::split_char_vec;
use crate::text::split_ws;
use crate::text::split_ws_vec;
use crate::text::string_of_chars;
use crate::Browser;
use crate::BrowserError;
use crate::BrowserV;

verus! {

/// One immediate subkey of a Start-Menu-Internet registration root: the
/// subkey's own name, its default value, and the default value of its
/// `shell\open\command` subkey, each absent where the registry has none.
pub struct RegistryEntry {
    pub key_name: String,
    pub display_name: Option<String>,
    pub open_command: Option<String>,
}

/// The executable path of an open command: the content of the first
/// double-quoted segment; without quotes, the first whitespace-delimited
/// token; empty when neither exists.
pub open spec fn extract_exec_spec(s: Seq<char>) -> Seq<char> {
    let qs = split_char(s, '"');
    if qs.len() > 1 {
        qs[1]
    } else {
        let ts = split_ws(s);
        if ts.len() > 0 {
            ts[0]
        } else {
            Seq::<char>::empty()
        }
    }
}

/// Computes [`extract_exec_spec`].
pub fn extract_executable_path(command: &str) -> (r: String)
    ensures
        r@ == extract_exec_spec(command@),
{
    let v = chars_of_str(command);
    let qs = split_char_vec(v.as_slice(), '"');
    proof {
        assert(seqs_of(qs@).len() == qs@.len());
    }
    if qs.len() > 1 {
        proof {
            assert(seqs_of(qs@)[1] == qs@[1]@);
        }
        string_of_chars(qs[1].as_slice())
    } else {
        let ts = split_ws_vec(v.as_slice());
        proof {
            assert(seqs_of(ts@).len() == ts@.len());
        }
        if ts.len() > 0 {
            proof {
                assert(seqs_of(ts@)[0] == ts@[0]@);
            }
            string_of_chars(ts[0].as_slice())
        } else {
            String::new()
        }
    }
}

/// The browser one registry entry contributes: nothing for the excluded
/// pre-installed legacy browser (any subkey name containing `IEXPLORE`,
/// ignoring case) or for an entry without an open command; otherwise the
/// display name (the subkey name when the default value is absent) and the
/// extracted executable path.
pub open spec fn reg_entry_browser(e: RegistryEntry) -> Option<BrowserV> {
    if contains_nocase(e.key_name@, "IEXPLORE"@) {
        None
    } else if e.open_command is Some {
        Some(
            BrowserV {
                name: match e.display_name {
                    Some(d) => d@,
                    None => e.key_name@,
                },
                exec_path: extract_exec_spec(e.open_command->Some_0@),
            },
        )
    } else {
        None
    }
}

/// The browsers one registration root's entries contribute, in order.
pub open spec fn reg_browsers(es: Seq<RegistryEntry>) -> Seq<BrowserV>
    decreases es.len(),
{
    if es.len() == 0 {
        Seq::<BrowserV>::empty()
    } else {
        let rest = reg_browsers(es.drop_last());
        match reg_entry_browser(es.last()) {
            Some(b) => rest.push(b),
            None => rest,
        }
    }
}

/// The browsers of one registration root; a root whose base key could not
/// be opened contributes nothing.
pub open spec fn root_browsers(root: Option<Vec<RegistryEntry>>) -> Seq<BrowserV> {
    match root {
        Some(es) => reg_browsers(es@),
        None => Seq::<BrowserV>::empty(),
    }
}

/// Computes [`reg_browsers`] over one root's entries, skipping the excluded
/// legacy browser and entries without an open command.
pub fn read_browsers_from_registry(entries: &Vec<RegistryEntry>) -> (r: Vec<Browser>)
    ensures
        crate::views_of(r@) == reg_browsers(entries@),
{
    let excluded = chars_of_str("IEXPLORE");
    let n = entries.len();
    let mut out: Vec<Browser> = Vec::new();
    proof {
        assert(crate::views_of(out@) =~= reg_browsers(entries@.subrange(0, 0)));
    }
    let mut i: usize = 0;
    while i < n
        invariant
            i <= n == entries@.len(),
            excluded@ == "IEXPLORE"@,
            crate::views_of(out@) == reg_browsers(entries@.subrange(0, i as int)),
        decreases n - i,
    {
        let ghost pre = entries@.subrange(0, i as int);
        let ghost pre1 = entries@.subrange(0, i + 1 as int);
        proof {
            assert(pre1.drop_last() =~= pre);
            assert(pre1.last() == entries@[i as int]);
        }
        let e = &entries[i];
        let key_chars = chars_of_str(e.key_name.as_str());
        if !contains_nocase_chars(key_chars.as_slice(), excluded.as_slice()) {
            match &e.open_command {
                Some(cmd) => {
                    let name = match &e.display_name {
                        Some(d) => d.clone(),
                        None => e.key_name.clone(),
                    };
                    let b = Browser { name, exec_path: extract_executable_path(cmd.as_str()) };
                    proof {
                        assert(reg_entry_browser(entries@[i as int]) == Some(b@));
                    }
                    out.push(b);
                    proof {
                        assert(crate::views_of(out@) =~= reg_browsers(pre).push(
                            reg_entry_browser(entries@[i as int])->Some_0,
                        ));
                    }
                },
                None => {},
            }
        }
        i += 1;
    }
    proof {
        assert(entries@.subrange(0, n as int) =~= entries@);
    }
    out
}

/// Merges a list of parsed browsers into a name-keyed accumulator, later
/// records overwriting earlier ones of the same name.
fn merge_browsers(acc: &mut Vec<Browser>, add: Vec<Browser>, Ghost(base): Ghost<Seq<BrowserV>>)
    requires
        crate::views_of(old(acc)@) == crate::dedup_by_name(base),
    ensures
        crate::views_of(final(acc)@) == crate::dedup_by_name(base + crate::views_of(add@)),
{
    let ghost av = crate::views_of(add@);
    let n = add.len();
    proof {
        assert(av.len() == add@.len());
        assert(base + av.subrange(0, 0) =~= base);
    }
    let mut rest = add;
    let mut i: usize = 0;
    while i < n
        invariant
            i <= n == av.len(),
            crate::views_of(rest@) == av.subrange(i as int, n as int),
            crate::views_of(acc@) == crate::dedup_by_name(base + av.subrange(0, i as int)),
        decreases n - i,
    {
        let ghost r0 = rest@;
        let ghost rv = crate::views_of(rest@);
        proof {
            assert(rv.len() == r0.len());
        }
        let b = rest.remove(0);
        proof {
            assert(b == r0[0]);
            assert(rv[0] == r0[0]@);
            assert(b@ == av[i as int]);
            let y = base + av.subrange(0, i as int);
            assert(y.push(b@).drop_last() =~= y);
            assert(crate::dedup_by_name(y.push(b@)) == crate::insert_by_name(
                crate::dedup_by_name(y),
                b@,
            ));
            assert(base + av.subrange(0, i + 1 as int) =~= y.push(b@));
        }
        crate::insert_browser(acc, b);
        proof {
            assert forall|j: int| 0 <= j < rest@.len() implies crate::views_of(rest@)[j] == av[i
                + 1 + j] by {
                assert(rest@[j] == r0[j + 1]);
                assert(rv[j + 1] == r0[j + 1]@);
            }
            assert(crate::views_of(rest@) =~= av.subrange(i + 1, n as int));
        }
        i += 1;
    }
    proof {
        assert(av.subrange(0, n as int) =~= av);
    }
}

/// Law: an entry whose subkey name contains `IEXPLORE` in any case never
/// contributes a browser — removing it from the entry list leaves the
/// scan's result unchanged.
pub proof fn lemma_iexplore_excluded(es: Seq<RegistryEntry>, i: int)
    requires
        0 <= i < es.len(),
        contains_nocase(es[i].key_name@, "IEXPLORE"@),
    ensures
        reg_browsers(es) == reg_browsers(es.remove(i)),
    decreases es.len(),
{
    if i == es.len() - 1 {
        assert(es.remove(i) =~= es.drop_last());
        assert(reg_entry_browser(es.last()) is None);
    } else {
        lemma_iexplore_excluded(es.drop_last(), i);
        assert(es.remove(i).drop_last() =~= es.drop_last().remove(i));
        assert(es.remove(i).last() == es.last());
    }
}

/// Everything one Windows discovery pass reads: the entries of the
/// machine-wide and the current-user registration root, each absent where
/// that root's base key could not be opened.
pub struct WindowsScan {
    pub machine: Option<Vec<RegistryEntry>>,
    pub user: Option<Vec<RegistryEntry>>,
}

/// Full Windows discovery over the two registration roots: machine-wide
/// entries first, then current-user entries, merged by display name so that
/// current-user registrations override machine-wide ones. Never fails; a
/// root whose base key could not be opened contributes nothing.
pub fn get_browsers(machine: &Option<Vec<RegistryEntry>>, user: &Option<Vec<RegistryEntry>>) -> (r:
    Result<Vec<Browser>, BrowserError>)
    ensures
        r is Ok,
        crate::views_of(r->Ok_0@) == crate::dedup_by_name(
            root_browsers(*machine) + root_browsers(*user),
        ),
{
    let mut acc: Vec<Browser> = Vec::new();
    proof {
        assert(crate::views_of(acc@) =~= crate::dedup_by_name(Seq::<BrowserV>::empty()));
    }
    match machine {
        Some(es) => {
            let bs = read_browsers_from_registry(es);
            proof {
                assert(Seq::<BrowserV>::empty() + crate::views_of(bs@) =~= crate::views_of(bs@));
            }
            merge_browsers(&mut acc, bs, Ghost(Seq::<BrowserV>::empty()));
        },
        None => {},
    }
    proof {
        assert(crate::views_of(acc@) == crate::dedup_by_name(root_browsers(*machine)));
    }
    match user {
        Some(es) => {
            let bs = read_browsers_from_registry(es);
            merge_browsers(&mut acc, bs, Ghost(root_browsers(*machine)));
        },
        None => {
            proof {
                assert(root_browsers(*machine) + root_browsers(*user) =~= root_browsers(*machine));
            }
        },
    }
    Ok(acc)
}

} // verus!
