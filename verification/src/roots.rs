//! The root resolver: the set of directories one scan traverses, combining
//! fixed home-relative defaults, platform-specific chat-application storage
//! directories, and a project's own folders, deduplicated in order.

use vstd::prelude::*;
use crate::classify::ScanScope;
use crate::text::{str_eq, str_views};

verus! {

/// The platform whose chat-application storage layout applies.
#[derive(Clone, Copy, Debug, PartialEq, Eq, Structural)]
pub enum Platform {
    MacOs,
    Windows,
    Other,
}

/// `base` and `sub` joined with a '/' separator.
pub open spec fn joined(base: Seq<char>, sub: Seq<char>) -> Seq<char> {
    base + "/"@ + sub
}

/// Join a base directory and a relative subpath.
pub fn join_path(base: &str, sub: &str) -> (r: String)
    ensures
        r@ == joined(base@, sub@),
{
    let mut s = base.to_owned();
    s.append("/");
    s.append(sub);
    s
}

/// The candidate roots: five fixed home-relative folders, then the
/// platform's chat-application storage directories. Directories that do not
/// exist are kept; traversal skips them later.
pub open spec fn spec_candidate_roots(
    platform: Platform,
    home: Seq<char>,
    userprofile: Option<Seq<char>>,
) -> Seq<Seq<char>> {
    seq![
        joined(home, "Documents"@),
        joined(home, "Desktop"@),
        joined(home, "Downloads"@),
        joined(home, "Projects"@),
        joined(home, "Work"@),
    ] + spec_chat_roots(platform, home, userprofile)
}

/// The platform's chat-application storage directories.
pub open spec fn spec_chat_roots(
    platform: Platform,
    home: Seq<char>,
    userprofile: Option<Seq<char>>,
) -> Seq<Seq<char>> {
    match platform {
        Platform::MacOs => seq![
            joined(
                home,
                "Library/Containers/com.tencent.xinWeChat/Data/Library/Application Support/com.tencent.xinWeChat"@,
            ),
            joined(
                home,
                "Library/Containers/com.tencent.WeWorkMac/Data/Library/Application Support/WXWork"@,
            ),
            joined(
                home,
                "Library/Containers/com.alibaba.DingTalkMac/Data/Library/Application Support"@,
            ),
        ],
        Platform::Windows => match userprofile {
            Some(u) => seq![
                joined(u, "Documents/WeChat Files"@),
                joined(u, "AppData/Roaming/Tencent/WeChat"@),
                joined(u, "AppData/Roaming/WXWork"@),
                joined(u, "AppData/Roaming/DingTalk"@),
            ],
            None => Seq::empty(),
        },
        Platform::Other => Seq::empty(),
    }
}

/// Compute the candidate roots for a platform, home directory and, on
/// Windows, the user-profile directory.
pub fn candidate_roots(platform: Platform, home: &str, userprofile: Option<&str>) -> (r: Vec<
    String,
>)
    ensures
        str_views(r@) == spec_candidate_roots(
            platform,
            home@,
            match userprofile {
                Some(u) => Some(u@),
                None => None,
            },
        ),
{
    let mut r: Vec<String> = Vec::new();
    r.push(join_path(home, "Documents"));
    r.push(join_path(home, "Desktop"));
    r.push(join_path(home, "Downloads"));
    r.push(join_path(home, "Projects"));
    r.push(join_path(home, "Work"));
    match platform {
        Platform::MacOs => {
            r.push(
                join_path(
                    home,
                    "Library/Containers/com.tencent.xinWeChat/Data/Library/Application Support/com.tencent.xinWeChat",
                ),
            );
            r.push(
                join_path(
                    home,
                    "Library/Containers/com.tencent.WeWorkMac/Data/Library/Application Support/WXWork",
                ),
            );
            r.push(
                join_path(
                    home,
                    "Library/Containers/com.alibaba.DingTalkMac/Data/Library/Application Support",
                ),
            );
        },
        Platform::Windows => {
            if let Some(u) = userprofile {
                r.push(join_path(u, "Documents/WeChat Files"));
                r.push(join_path(u, "AppData/Roaming/Tencent/WeChat"));
                r.push(join_path(u, "AppData/Roaming/WXWork"));
                r.push(join_path(u, "AppData/Roaming/DingTalk"));
            }
        },
        Platform::Other => {},
    }
    proof {
        assert(str_views(r@) =~= spec_candidate_roots(
            platform,
            home@,
            match userprofile {
                Some(u) => Some(u@),
                None => None,
            },
        ));
    }
    r
}

/// `s` with later repetitions of an element removed: each root keeps its
/// first occurrence only.
pub open spec fn dedup_first(s: Seq<Seq<char>>) -> Seq<Seq<char>>
    decreases s.len(),
{
    if s.len() == 0 {
        Seq::empty()
    } else {
        let d = dedup_first(s.drop_last());
        if d.contains(s.last()) {
            d
        } else {
            d.push(s.last())
        }
    }
}

/// Is `x` among the strings of `v`?
pub fn vec_contains_str(v: &Vec<String>, x: &str) -> (r: bool)
    ensures
        r == str_views(v@).contains(x@),
{
    let mut i: usize = 0;
    while i < v.len()
        invariant
            i <= v@.len(),
            forall|k: int| 0 <= k < i ==> str_views(v@)[k] != x@,
        decreases v@.len() - i,
    {
        if str_eq(v[i].as_str(), x) {
            assert(str_views(v@)[i as int] == x@);
            return true;
        }
        i += 1;
    }
    assert(forall|k: int| 0 <= k < v@.len() ==> str_views(v@)[k] != x@);
    false
}

/// Append the strings of `from`, skipping any whose image is already in
/// `out`, preserving first occurrences in order.
fn push_deduped(out: &mut Vec<String>, from: &Vec<String>)
    requires
        str_views(old(out)@) == dedup_first(str_views(old(out)@)),
    ensures
        str_views(final(out)@) == dedup_first(str_views(old(out)@) + str_views(from@)),
{
    let ghost base = str_views(out@);
    let mut i: usize = 0;
    while i < from.len()
        invariant
            i <= from@.len(),
            str_views(out@) == dedup_first(base + str_views(from@.subrange(0, i as int))),
            base == dedup_first(base),
        decreases from@.len() - i,
    {
        let ghost pre = base + str_views(from@.subrange(0, i as int));
        let x = &from[i];
        proof {
            assert(pre.push(x@) =~= base + str_views(from@.subrange(0, i + 1)));
            assert(pre.push(x@).drop_last() =~= pre);
        }
        if !vec_contains_str(out, x.as_str()) {
            out.push(x.clone());
        }
        proof {
            assert(str_views(out@) =~= dedup_first(base + str_views(from@.subrange(0, i + 1))));
        }
        i += 1;
    }
    proof {
        assert(from@.subrange(0, from@.len() as int) =~= from@);
    }
}

/// Resolve the roots one scan traverses. A custom-scoped project scans
/// exactly its chosen folders, each taken as-is and in order — repetitions
/// included, existence left to the traversal; with none chosen it falls
/// back to its own managed folder as the sole root. Any other scope scans
/// the union of the fixed defaults and the project's folder, deduplicated
/// with each root keeping its first position.
pub fn resolve_scan_roots(
    scope: ScanScope,
    scan_folders: &Vec<String>,
    project_folder: &str,
    defaults: &Vec<String>,
) -> (r: Vec<String>)
    ensures
        str_views(r@) == spec_resolve_roots(
            scope,
            str_views(scan_folders@),
            project_folder@,
            str_views(defaults@),
        ),
{
    let mut r: Vec<String> = Vec::new();
    proof {
        assert(str_views(r@) =~= Seq::<Seq<char>>::empty());
        assert(dedup_first(Seq::<Seq<char>>::empty()) =~= Seq::<Seq<char>>::empty());
    }
    match scope {
        ScanScope::Custom => {
            if scan_folders.len() > 0 {
                let mut i: usize = 0;
                proof {
                    assert(str_views(r@) =~= str_views(scan_folders@).subrange(0, 0));
                }
                while i < scan_folders.len()
                    invariant
                        i <= scan_folders@.len(),
                        str_views(r@) == str_views(scan_folders@).subrange(0, i as int),
                    decreases scan_folders@.len() - i,
                {
                    let ghost before = str_views(r@);
                    r.push(scan_folders[i].clone());
                    proof {
                        assert(str_views(r@) =~= before.push(scan_folders@[i as int]@));
                        assert(str_views(scan_folders@).subrange(0, i + 1) =~= before.push(
                            scan_folders@[i as int]@,
                        ));
                    }
                    i += 1;
                }
                proof {
                    assert(str_views(scan_folders@).subrange(
                        0,
                        scan_folders@.len() as int,
                    ) =~= str_views(scan_folders@));
                }
            } else {
                r.push(project_folder.to_owned());
                proof {
                    assert(str_views(r@) =~= seq![project_folder@]);
                }
            }
        },
        ScanScope::All => {
            push_deduped(&mut r, defaults);
            let ghost mid = str_views(r@);
            proof {
                assert(Seq::<Seq<char>>::empty() + str_views(defaults@) =~= str_views(defaults@));
            }
            if !vec_contains_str(&r, project_folder) {
                r.push(project_folder.to_owned());
            }
            proof {
                assert(str_views(defaults@).push(project_folder@).drop_last() =~= str_views(
                    defaults@,
                ));
                assert(str_views(r@) =~= dedup_first(str_views(defaults@).push(project_folder@)));
            }
        },
    }
    r
}

/// A chat application's data directory, as detected on this machine.
pub struct ChatLocation {
    pub app: String,
    pub path: String,
}

/// The mathematical image of a `ChatLocation`.
pub ghost struct ChatLocationV {
    pub app: Seq<char>,
    pub path: Seq<char>,
}

impl View for ChatLocation {
    type V = ChatLocationV;

    open spec fn view(&self) -> ChatLocationV {
        ChatLocationV { app: self.app@, path: self.path@ }
    }
}

impl ChatLocation {
    /// An owned copy with the same image.
    pub fn duplicate(&self) -> (r: ChatLocation)
        ensures
            r@ == self@,
    {
        ChatLocation { app: self.app.clone(), path: self.path.clone() }
    }
}

/// The images of a sequence of chat locations.
pub open spec fn chat_views(s: Seq<ChatLocation>) -> Seq<ChatLocationV> {
    s.map_values(|c: ChatLocation| c@)
}

/// The fixed candidate list of chat-application data directories for a
/// platform; detection later keeps the ones that exist.
pub open spec fn spec_chat_candidates(
    platform: Platform,
    home: Seq<char>,
    userprofile: Option<Seq<char>>,
) -> Seq<ChatLocationV> {
    match platform {
        Platform::MacOs => seq![
            ChatLocationV {
                app: "WeChat"@,
                path: joined(
                    home,
                    "Library/Containers/com.tencent.xinWeChat/Data/Library/Application Support/com.tencent.xinWeChat"@,
                ),
            },
            ChatLocationV {
                app: "WeCom"@,
                path: joined(
                    home,
                    "Library/Containers/com.tencent.WeWorkMac/Data/Library/Application Support/WXWork"@,
                ),
            },
            ChatLocationV {
                app: "DingTalk"@,
                path: joined(
                    home,
                    "Library/Containers/com.alibaba.DingTalkMac/Data/Library/Application Support"@,
                ),
            },
        ],
        Platform::Windows => match userprofile {
            Some(u) => seq![
                ChatLocationV { app: "WeChat"@, path: joined(u, "Documents/WeChat Files"@) },
                ChatLocationV { app: "WeChat"@, path: joined(u, "AppData/Roaming/Tencent/WeChat"@) },
                ChatLocationV { app: "WeCom"@, path: joined(u, "AppData/Roaming/WXWork"@) },
                ChatLocationV { app: "DingTalk"@, path: joined(u, "AppData/Roaming/DingTalk"@) },
            ],
            None => Seq::empty(),
        },
        Platform::Other => Seq::empty(),
    }
}

/// Build the candidate chat-application locations for a platform.
pub fn chat_candidates(platform: Platform, home: &str, userprofile: Option<&str>) -> (r: Vec<
    ChatLocation,
>)
    ensures
        chat_views(r@) == spec_chat_candidates(
            platform,
            home@,
            match userprofile {
                Some(u) => Some(u@),
                None => None,
            },
        ),
{
    let mut r: Vec<ChatLocation> = Vec::new();
    match platform {
        Platform::MacOs => {
            r.push(
                ChatLocation {
                    app: "WeChat".to_owned(),
                    path: join_path(
                        home,
                        "Library/Containers/com.tencent.xinWeChat/Data/Library/Application Support/com.tencent.xinWeChat",
                    ),
                },
            );
            r.push(
                ChatLocation {
                    app: "WeCom".to_owned(),
                    path: join_path(
                        home,
                        "Library/Containers/com.tencent.WeWorkMac/Data/Library/Application Support/WXWork",
                    ),
                },
            );
            r.push(
                ChatLocation {
                    app: "DingTalk".to_owned(),
                    path: join_path(
                        home,
                        "Library/Containers/com.alibaba.DingTalkMac/Data/Library/Application Support",
                    ),
                },
            );
        },
        Platform::Windows => {
            if let Some(u) = userprofile {
                r.push(
                    ChatLocation {
                        app: "WeChat".to_owned(),
                        path: join_path(u, "Documents/WeChat Files"),
                    },
                );
                r.push(
                    ChatLocation {
                        app: "WeChat".to_owned(),
                        path: join_path(u, "AppData/Roaming/Tencent/WeChat"),
                    },
                );
                r.push(
                    ChatLocation {
                        app: "WeCom".to_owned(),
                        path: join_path(u, "AppData/Roaming/WXWork"),
                    },
                );
                r.push(
                    ChatLocation {
                        app: "DingTalk".to_owned(),
                        path: join_path(u, "AppData/Roaming/DingTalk"),
                    },
                );
            }
        },
        Platform::Other => {},
    }
    proof {
        assert(chat_views(r@) =~= spec_chat_candidates(
            platform,
            home@,
            match userprofile {
                Some(u) => Some(u@),
                None => None,
            },
        ));
    }
    r
}

/// The elements of `s` whose flag in `m` is set, in order.
pub open spec fn masked<T>(s: Seq<T>, m: Seq<bool>) -> Seq<T>
    decreases s.len(),
{
    if s.len() == 0 || m.len() == 0 {
        Seq::empty()
    } else {
        masked(s.drop_last(), m.drop_last()) + if m.last() {
            seq![s.last()]
        } else {
            Seq::empty()
        }
    }
}

/// Keep the candidates whose directory exists; `present` supplies, per
/// candidate and in the same order, whether its directory was found.
pub fn select_existing(cands: &Vec<ChatLocation>, present: &Vec<bool>) -> (r: Vec<ChatLocation>)
    requires
        present@.len() == cands@.len(),
    ensures
        chat_views(r@) == masked(chat_views(cands@), present@),
{
    let mut out: Vec<ChatLocation> = Vec::new();
    let mut i: usize = 0;
    proof {
        assert(chat_views(out@) =~= masked(
            chat_views(cands@.subrange(0, 0)),
            present@.subrange(0, 0),
        ));
    }
    while i < cands.len()
        invariant
            i <= cands@.len(),
            present@.len() == cands@.len(),
            chat_views(out@) == masked(
                chat_views(cands@.subrange(0, i as int)),
                present@.subrange(0, i as int),
            ),
        decreases cands@.len() - i,
    {
        let ghost sp = chat_views(cands@.subrange(0, i as int));
        let ghost mp = present@.subrange(0, i as int);
        if present[i] {
            out.push(cands[i].duplicate());
        }
        proof {
            let sn = chat_views(cands@.subrange(0, i + 1));
            let mn = present@.subrange(0, i + 1);
            assert(sn =~= sp.push(cands@[i as int]@));
            assert(mn =~= mp.push(present@[i as int]));
            assert(sn.drop_last() =~= sp);
            assert(mn.drop_last() =~= mp);
            assert(chat_views(out@) =~= masked(sn, mn));
        }
        i += 1;
    }
    proof {
        assert(cands@.subrange(0, cands@.len() as int) =~= cands@);
        assert(present@.subrange(0, present@.len() as int) =~= present@);
    }
    out
}

/// The resolved root sequence: a custom scope's folder list exactly as
/// given, or the deduplicated union of the defaults and the project folder,
/// first occurrences kept.
pub open spec fn spec_resolve_roots(
    scope: ScanScope,
    folders: Seq<Seq<char>>,
    project: Seq<char>,
    defaults: Seq<Seq<char>>,
) -> Seq<Seq<char>> {
    if scope is Custom {
        if folders.len() > 0 {
            folders
        } else {
            seq![project]
        }
    } else {
        dedup_first(defaults.push(project))
    }
}

} // verus!
