//! Discovery of installed web browsers.
//!
//! The library resolves, for each registered browser, a display name and a
//! best-effort launchable executable path. It understands two registration
//! conventions: the freedesktop.org HTTP-handler convention (Linux family)
//! and the Windows "Start Menu Internet" registry convention. All reading of
//! the outside world (files, registry, `PATH` lookup) is done by the caller,
//! who hands the raw text in as plain values; everything the library does
//! with those values is verified.

use vstd::prelude::*;

pub mod linux;
pub mod text;
pub mod windows;

verus! {

/// One discovered browser: a display name and a path intended to be the
/// launchable executable. On Linux the path may be an opaque containerized
/// application identifier rather than a filesystem path.
#[derive(Debug, Clone)]
pub struct Browser {
    pub name: String,
    pub exec_path: String,
}

/// Mathematical model of a [`Browser`]: both fields as character sequences.
pub ghost struct BrowserV {
    pub name: Seq<char>,
    pub exec_path: Seq<char>,
}

impl View for Browser {
    type V = BrowserV;

    open spec fn view(&self) -> BrowserV {
        BrowserV { name: self.name@, exec_path: self.exec_path@ }
    }
}

/// The views of a list of browsers, in order.
pub open spec fn views_of(bs: Seq<Browser>) -> Seq<BrowserV> {
    bs.map_values(|b: Browser| b@)
}

/// Errors a discovery pass can surface. Everything else (missing files,
/// missing fields, failed lookups) degrades to skipped entries instead.
#[derive(Debug, Clone, PartialEq, Eq, Structural)]
pub enum BrowserError {
    /// The host platform is neither of the two supported ones.
    UnsupportedOs,
    /// A handler-cache file exists but could not be read.
    Io,
}

/// The views of a list of strings, in order.
pub open spec fn str_views(ss: Seq<String>) -> Seq<Seq<char>> {
    ss.map_values(|s: String| s@)
}

/// The view of an optional string.
pub open spec fn opt_view(o: Option<String>) -> Option<Seq<char>> {
    match o {
        Some(s) => Some(s@),
        None => None,
    }
}

/// The position of the first browser in `s` named `name`, or `-1`.
pub open spec fn find_name(s: Seq<BrowserV>, name: Seq<char>) -> int
    decreases s.len(),
{
    if s.len() == 0 {
        -1
    } else if s[0].name == name {
        0
    } else {
        let r = find_name(s.drop_first(), name);
        if r < 0 {
            -1
        } else {
            r + 1
        }
    }
}

/// Name-keyed insertion: a browser whose name is already present replaces
/// the earlier record in place; a new name is appended.
pub open spec fn insert_by_name(s: Seq<BrowserV>, b: BrowserV) -> Seq<BrowserV> {
    let k = find_name(s, b.name);
    if k >= 0 {
        s.update(k, b)
    } else {
        s.push(b)
    }
}

/// Last-write-wins deduplication by name: each browser of `s` inserted in
/// order with [`insert_by_name`].
pub open spec fn dedup_by_name(s: Seq<BrowserV>) -> Seq<BrowserV>
    decreases s.len(),
{
    if s.len() == 0 {
        Seq::<BrowserV>::empty()
    } else {
        insert_by_name(dedup_by_name(s.drop_last()), s.last())
    }
}

pub proof fn lemma_find_name_range(s: Seq<BrowserV>, name: Seq<char>)
    ensures
        -1 <= find_name(s, name) < s.len(),
        find_name(s, name) >= 0 ==> s[find_name(s, name)].name == name,
        find_name(s, name) == -1 ==> forall|i: int| 0 <= i < s.len() ==> s[i].name != name,
    decreases s.len(),
{
    if s.len() > 0 && s[0].name != name {
        lemma_find_name_range(s.drop_first(), name);
        assert forall|i: int| find_name(s, name) == -1 && 0 <= i < s.len() implies s[i].name
            != name by {
            if i > 0 {
                assert(s.drop_first()[i - 1].name != name);
            }
        }
    }
}

/// Computes [`insert_by_name`] on a browser list.
pub fn insert_browser(list: &mut Vec<Browser>, b: Browser)
    ensures
        views_of(final(list)@) == insert_by_name(views_of(old(list)@), b@),
{
    let ghost s = views_of(old(list)@);
    let n = list.len();
    proof {
        assert(s.len() == list@.len());
        assert(s.subrange(0, n as int) =~= s);
    }
    let mut i: usize = 0;
    while i < n
        invariant
            i <= n == list@.len(),
            s == views_of(list@),
            s == views_of(old(list)@),
            find_name(s, b@.name) == (if find_name(s.subrange(i as int, n as int), b@.name) < 0 {
                -1int
            } else {
                i + find_name(s.subrange(i as int, n as int), b@.name)
            }),
        decreases n - i,
    {
        if list[i].name == b.name {
            proof {
                assert(s[i as int] == list@[i as int]@);
                assert(s.subrange(i as int, n as int)[0] == s[i as int]);
                assert(find_name(s.subrange(i as int, n as int), b@.name) == 0);
                assert(find_name(s, b@.name) == i as int);
            }
            list.remove(i);
            list.insert(i, b);
            proof {
                assert(views_of(list@) =~= s.update(i as int, b@));
                assert(insert_by_name(s, b@) == s.update(i as int, b@));
            }
            return ;
        }
        proof {
            let tail = s.subrange(i as int, n as int);
            assert(tail[0] == s[i as int]);
            assert(tail.drop_first() =~= s.subrange(i + 1, n as int));
        }
        i += 1;
    }
    proof {
        assert(s.subrange(n as int, n as int) =~= Seq::<BrowserV>::empty());
    }
    list.push(b);
    proof {
        assert(views_of(list@) =~= s.push(b@));
    }
}

/// Everything one discovery pass read from the host, tagged by the platform
/// convention it came from. A host following neither convention is
/// `Unsupported`.
pub enum PlatformScan {
    Linux(linux::LinuxScan),
    Windows(windows::WindowsScan),
    Unsupported,
}

/// Platform dispatch over one scan's data: Linux-family discovery, Windows
/// discovery, or an immediate unsupported-platform error.
pub fn get_browsers(scan: &PlatformScan) -> (r: Result<Vec<Browser>, BrowserError>)
    ensures
        (*scan) matches PlatformScan::Linux(s) ==> {
            &&& r is Err <==> linux::any_unreadable(s.cache_reads@)
            &&& r is Err ==> r->Err_0 == BrowserError::Io
            &&& r is Ok ==> views_of(r->Ok_0@) == linux::linux_browsers(s)
        },
        (*scan) matches PlatformScan::Windows(w) ==> {
            &&& r is Ok
            &&& views_of(r->Ok_0@) == dedup_by_name(
                windows::root_browsers(w.machine) + windows::root_browsers(w.user),
            )
        },
        (*scan) is Unsupported ==> r == Result::<Vec<Browser>, BrowserError>::Err(
            BrowserError::UnsupportedOs,
        ),
{
    match scan {
        PlatformScan::Linux(s) => linux::get_browsers(s),
        PlatformScan::Windows(w) => windows::get_browsers(&w.machine, &w.user),
        PlatformScan::Unsupported => Err(BrowserError::UnsupportedOs),
    }
}

/// The browsers of `bs` whose flag in `fs` is set, in order.
pub open spec fn filter_by_flags(bs: Seq<BrowserV>, fs: Seq<bool>) -> Seq<BrowserV>
    recommends
        bs.len() == fs.len(),
    decreases bs.len(),
{
    if bs.len() == 0 {
        Seq::<BrowserV>::empty()
    } else {
        let r = filter_by_flags(bs.drop_last(), fs.drop_last());
        if fs.last() {
            r.push(bs.last())
        } else {
            r
        }
    }
}

/// Keeps exactly the browsers whose executable the caller found to exist.
/// `exec_exists[i]` reports whether `browsers[i].exec_path` names an existing
/// file; opaque containerized-application identifiers have no such reading,
/// so this filter is meaningful only for filesystem paths.
pub fn get_executable_browsers(browsers: Vec<Browser>, exec_exists: &Vec<bool>) -> (r: Vec<
    Browser,
>)
    requires
        browsers@.len() == exec_exists@.len(),
    ensures
        views_of(r@) == filter_by_flags(views_of(browsers@), exec_exists@),
{
    let ghost bs0 = views_of(browsers@);
    let n = browsers.len();
    let mut rest = browsers;
    let mut out: Vec<Browser> = Vec::new();
    proof {
        assert(views_of(rest@) =~= bs0.subrange(0, n as int));
        assert(views_of(out@) =~= filter_by_flags(bs0.subrange(0, 0), exec_exists@.subrange(0, 0)));
    }
    let mut i: usize = 0;
    while i < n
        invariant
            i <= n == bs0.len() == exec_exists@.len(),
            views_of(rest@) == bs0.subrange(i as int, n as int),
            views_of(out@) == filter_by_flags(
                bs0.subrange(0, i as int),
                exec_exists@.subrange(0, i as int),
            ),
        decreases n - i,
    {
        let ghost bpre = bs0.subrange(0, i as int);
        let ghost fpre = exec_exists@.subrange(0, i as int);
        let ghost bpre1 = bs0.subrange(0, i + 1 as int);
        let ghost fpre1 = exec_exists@.subrange(0, i + 1 as int);
        proof {
            assert(bpre1.drop_last() =~= bpre);
            assert(fpre1.drop_last() =~= fpre);
            assert(bpre1.last() == bs0[i as int]);
        }
        let ghost r0 = rest@;
        let ghost rv = views_of(rest@);
        proof {
            assert(rv.len() == r0.len());
        }
        let b = rest.remove(0);
        proof {
            assert(b == r0[0]);
            assert(rv[0] == r0[0]@);
            assert(b@ == bs0[i as int]);
        }
        if exec_exists[i] {
            out.push(b);
            proof {
                assert(views_of(out@) =~= filter_by_flags(bpre, fpre).push(bs0[i as int]));
            }
        }
        proof {
            assert forall|j: int| 0 <= j < rest@.len() implies views_of(rest@)[j] == bs0[i + 1
                + j] by {
                assert(rest@[j] == r0[j + 1]);
                assert(rv[j + 1] == r0[j + 1]@);
            }
            assert(views_of(rest@) =~= bs0.subrange(i + 1, n as int));
        }
        i += 1;
    }
    proof {
        assert(bs0.subrange(0, n as int) =~= bs0);
        assert(exec_exists@.subrange(0, n as int) =~= exec_exists@);
    }
    out
}

/// No record of `s` after position `k` bears the same name as `s[k]`.
pub open spec fn is_last_of_name(s: Seq<BrowserV>, k: int) -> bool {
    0 <= k < s.len() && forall|m: int| k < m < s.len() ==> (#[trigger] s[m]).name != s[k].name
}

/// `b` is the last record of `s` that bears its name.
pub open spec fn last_with_name(s: Seq<BrowserV>, b: BrowserV) -> bool {
    exists|k: int| #[trigger] is_last_of_name(s, k) && s[k] == b
}

/// Some record of `s` is named `n`.
pub open spec fn has_name(s: Seq<BrowserV>, n: Seq<char>) -> bool {
    exists|i: int| 0 <= i < s.len() && (#[trigger] s[i]).name == n
}

/// Law: name-keyed deduplication is deterministic and last-write-wins — the
/// result's names are pairwise distinct, every result record is the last
/// input record bearing its name, and every input name is represented.
pub proof fn lemma_dedup_last_wins(s: Seq<BrowserV>)
    ensures
        forall|i: int, j: int|
            #![trigger dedup_by_name(s)[i], dedup_by_name(s)[j]]
            0 <= i < j < dedup_by_name(s).len() ==> dedup_by_name(s)[i].name != dedup_by_name(
                s,
            )[j].name,
        forall|i: int|
            0 <= i < dedup_by_name(s).len() ==> last_with_name(
                s,
                #[trigger] dedup_by_name(s)[i],
            ),
        forall|k: int| 0 <= k < s.len() ==> has_name(dedup_by_name(s), (#[trigger] s[k]).name),
    decreases s.len(),
{
    if s.len() > 0 {
        let s1 = s.drop_last();
        let b = s.last();
        lemma_dedup_last_wins(s1);
        lemma_find_name_range(dedup_by_name(s1), b.name);
        let k = find_name(dedup_by_name(s1), b.name);
        if k >= 0 {
            assert(dedup_by_name(s) == dedup_by_name(s1).update(k, b));
            assert(dedup_by_name(s1)[k].name == b.name);
            assert forall|i: int| 0 <= i < dedup_by_name(s).len() implies (#[trigger] dedup_by_name(
                s,
            )[i]).name == dedup_by_name(s1)[i].name by {}
            assert forall|i: int, j: int|
                #![trigger dedup_by_name(s)[i], dedup_by_name(s)[j]]
                0 <= i < j < dedup_by_name(s).len() implies dedup_by_name(s)[i].name
                != dedup_by_name(s)[j].name by {
                assert(dedup_by_name(s1)[i].name != dedup_by_name(s1)[j].name);
            }
            assert forall|i: int| 0 <= i < dedup_by_name(s).len() implies last_with_name(
                s,
                #[trigger] dedup_by_name(s)[i],
            ) by {
                if i == k {
                    assert(is_last_of_name(s, s.len() - 1));
                    assert(s[s.len() - 1] == dedup_by_name(s)[i]);
                } else {
                    assert(dedup_by_name(s)[i] == dedup_by_name(s1)[i]);
                    assert(last_with_name(s1, dedup_by_name(s1)[i]));
                    let k0 = choose|k0: int|
                        #[trigger] is_last_of_name(s1, k0) && s1[k0] == dedup_by_name(s1)[i];
                    assert(dedup_by_name(s1)[i].name != dedup_by_name(s1)[k].name);
                    assert forall|m: int| k0 < m < s.len() implies (#[trigger] s[m]).name
                        != s[k0].name by {
                        if m < s.len() - 1 {
                            assert(s[m] == s1[m]);
                            assert(s1[m].name != s1[k0].name);
                        } else {
                            assert(s[m] == b);
                        }
                    }
                    assert(is_last_of_name(s, k0));
                    assert(s[k0] == dedup_by_name(s)[i]);
                }
            }
            assert forall|k2: int| 0 <= k2 < s.len() implies has_name(
                dedup_by_name(s),
                (#[trigger] s[k2]).name,
            ) by {
                if k2 < s.len() - 1 {
                    assert(s[k2] == s1[k2]);
                    assert(has_name(dedup_by_name(s1), s1[k2].name));
                    let i = choose|i: int|
                        0 <= i < dedup_by_name(s1).len() && (#[trigger] dedup_by_name(s1)[i]).name
                            == s1[k2].name;
                    assert((dedup_by_name(s)[i]).name == s[k2].name);
                } else {
                    assert((dedup_by_name(s)[k]).name == s[k2].name);
                }
            }
        } else {
            assert(dedup_by_name(s) == dedup_by_name(s1).push(b));
            assert forall|i: int, j: int|
                #![trigger dedup_by_name(s)[i], dedup_by_name(s)[j]]
                0 <= i < j < dedup_by_name(s).len() implies dedup_by_name(s)[i].name
                != dedup_by_name(s)[j].name by {
                if j < dedup_by_name(s1).len() {
                    assert(dedup_by_name(s1)[i].name != dedup_by_name(s1)[j].name);
                } else {
                    assert(dedup_by_name(s)[j] == b);
                    assert(dedup_by_name(s1)[i].name != b.name);
                }
            }
            assert forall|i: int| 0 <= i < dedup_by_name(s).len() implies last_with_name(
                s,
                #[trigger] dedup_by_name(s)[i],
            ) by {
                if i == dedup_by_name(s1).len() {
                    assert(is_last_of_name(s, s.len() - 1));
                    assert(s[s.len() - 1] == dedup_by_name(s)[i]);
                } else {
                    assert(dedup_by_name(s)[i] == dedup_by_name(s1)[i]);
                    assert(last_with_name(s1, dedup_by_name(s1)[i]));
                    let k0 = choose|k0: int|
                        #[trigger] is_last_of_name(s1, k0) && s1[k0] == dedup_by_name(s1)[i];
                    assert(dedup_by_name(s1)[i].name != b.name);
                    assert forall|m: int| k0 < m < s.len() implies (#[trigger] s[m]).name
                        != s[k0].name by {
                        if m < s.len() - 1 {
                            assert(s[m] == s1[m]);
                            assert(s1[m].name != s1[k0].name);
                        } else {
                            assert(s[m] == b);
                        }
                    }
                    assert(is_last_of_name(s, k0));
                    assert(s[k0] == dedup_by_name(s)[i]);
                }
            }
            assert forall|k2: int| 0 <= k2 < s.len() implies has_name(
                dedup_by_name(s),
                (#[trigger] s[k2]).name,
            ) by {
                if k2 < s.len() - 1 {
                    assert(s[k2] == s1[k2]);
                    assert(has_name(dedup_by_name(s1), s1[k2].name));
                    let i = choose|i: int|
                        0 <= i < dedup_by_name(s1).len() && (#[trigger] dedup_by_name(s1)[i]).name
                            == s1[k2].name;
                    assert((dedup_by_name(s)[i]).name == s[k2].name);
                } else {
                    assert((dedup_by_name(s)[dedup_by_name(s).len() - 1]).name == s[k2].name);
                }
            }
        }
    }
}

/// `b` is one of the browsers of `bs` whose flag in `fs` is set.
pub open spec fn kept_by_flags(bs: Seq<BrowserV>, fs: Seq<bool>, b: BrowserV) -> bool {
    exists|j: int| 0 <= j < bs.len() && fs[j] && bs[j] == b
}

/// Law: for every browser kept by the existence filter there is an input
/// browser with its flag set, and every input browser with its flag set is
/// kept.
pub proof fn lemma_filter_by_flags(bs: Seq<BrowserV>, fs: Seq<bool>)
    requires
        bs.len() == fs.len(),
    ensures
        forall|k: int|
            0 <= k < filter_by_flags(bs, fs).len() ==> kept_by_flags(
                bs,
                fs,
                #[trigger] filter_by_flags(bs, fs)[k],
            ),
        forall|j: int|
            0 <= j < bs.len() && fs[j] ==> filter_by_flags(bs, fs).contains(#[trigger] bs[j]),
    decreases bs.len(),
{
    if bs.len() > 0 {
        let b1 = bs.drop_last();
        let f1 = fs.drop_last();
        let r1 = filter_by_flags(b1, f1);
        let r = filter_by_flags(bs, fs);
        lemma_filter_by_flags(b1, f1);
        assert forall|k: int| 0 <= k < filter_by_flags(bs, fs).len() implies kept_by_flags(
            bs,
            fs,
            #[trigger] filter_by_flags(bs, fs)[k],
        ) by {
            if k < r1.len() {
                assert(kept_by_flags(b1, f1, filter_by_flags(b1, f1)[k]));
                let j = choose|j: int| 0 <= j < b1.len() && f1[j] && b1[j] == filter_by_flags(
                    b1,
                    f1,
                )[k];
                assert(r[k] == r1[k]);
                assert(0 <= j < bs.len() && fs[j] && bs[j] == filter_by_flags(bs, fs)[k]);
            } else {
                assert(fs.last() && r[k] == bs.last());
                let j = bs.len() - 1;
                assert(0 <= j < bs.len() && fs[j] && bs[j] == filter_by_flags(bs, fs)[k]);
            }
        }
        assert forall|j: int|
            0 <= j < bs.len() && fs[j] implies filter_by_flags(bs, fs).contains(
            #[trigger] bs[j],
        ) by {
            if j < bs.len() - 1 {
                assert(r1.contains(b1[j]));
                let k = choose|k: int| 0 <= k < r1.len() && r1[k] == b1[j];
                assert(r[k] == r1[k]);
            } else {
                assert(fs.last());
                assert(r[r.len() - 1] == bs.last());
            }
        }
    }
}

} // verus!
