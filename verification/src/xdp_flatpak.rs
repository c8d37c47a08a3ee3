//! Flatpak instance records and where they are found: one directory per
//! running instance below the user's runtime directory, the user's data
//! directory, or the system instance directory.

use vstd::prelude::*;
use crate::header_map::str_eq;
use crate::ws_handshake::opt_str;
use crate::text::string_views;
use crate::http_text::str_chars;
use crate::xdp_documents::{rfind_char, rfind_in};
use crate::xdp_error::{PortalError, XdpResult};

verus! {

/// A Flatpak instance with its metadata.
#[derive(Debug, Clone, PartialEq, Eq)]
pub struct FlatpakInstance {
    /// The instance ID (directory name).
    pub id: String,
    /// The application ID (or runtime ID if no application).
    pub app_id: String,
    /// The architecture of the application or runtime.
    pub arch: String,
    /// The branch of the application or runtime.
    pub branch: String,
    /// The commit of the application.
    pub commit: String,
    /// The filesystem path to the instance directory.
    pub instance_path: String,
    /// The ref type: `app` or `runtime`.
    pub ref_type: String,
}

/// The directories scanned for instances: `.flatpak` below the runtime
/// directory and `.local/share/flatpak/instances` below the home
/// directory, each when known, then the system instance directory.
pub open spec fn base_dirs(runtime_dir: Option<Seq<char>>, home: Option<Seq<char>>) -> Seq<Seq<char>> {
    let a: Seq<Seq<char>> = match runtime_dir {
        Some(r) => seq![r + "/.flatpak"@],
        None => seq![],
    };
    let b: Seq<Seq<char>> = match home {
        Some(h) => seq![h + "/.local/share/flatpak/instances"@],
        None => seq![],
    };
    a + b + seq!["/var/lib/flatpak/instances"@]
}

/// Returns the base directories to scan for Flatpak instances, given the
/// values of `$XDG_RUNTIME_DIR` and `$HOME`.
pub fn get_instance_base_dirs(runtime_dir: Option<&str>, home: Option<&str>) -> (r: Vec<String>)
    ensures
        string_views(r@) == base_dirs(opt_str(runtime_dir), opt_str(home)),
{
    let mut dirs: Vec<String> = Vec::new();
    match runtime_dir {
        Some(d) => {
            let mut s = String::from_str(d);
            s.append("/.flatpak");
            dirs.push(s);
        },
        None => {},
    }
    match home {
        Some(h) => {
            let mut s = String::from_str(h);
            s.append("/.local/share/flatpak/instances");
            dirs.push(s);
        },
        None => {},
    }
    dirs.push(String::from_str("/var/lib/flatpak/instances"));
    proof {
        assert(string_views(dirs@) =~= base_dirs(opt_str(runtime_dir), opt_str(home)));
    }
    dirs
}

/// Index of the first instance from `k` on running `app_id`, or a
/// negative number.
pub open spec fn instance_index(instances: Seq<FlatpakInstance>, app_id: Seq<char>, k: int) -> int
    decreases instances.len() - k,
{
    if k < 0 || k >= instances.len() {
        -1
    } else if instances[k].app_id@ == app_id {
        k
    } else {
        instance_index(instances, app_id, k + 1)
    }
}

/// Finds the first of `instances` running `app_id`.
pub fn find_by_app_id<'a>(instances: &'a [FlatpakInstance], app_id: &str) -> (r: Option<&'a FlatpakInstance>)
    ensures
        ({
            let k = instance_index(instances@, app_id@, 0);
            if k >= 0 {
                r matches Some(i) && k < instances@.len() && *i == instances@[k]
            } else {
                r is None
            }
        }),
{
    let mut k: usize = 0;
    while k < instances.len()
        invariant
            k <= instances@.len(),
            instance_index(instances@, app_id@, 0) == instance_index(instances@, app_id@, k as int),
        decreases instances@.len() - k,
    {
        if str_eq(instances[k].app_id.as_str(), app_id) {
            return Some(&instances[k]);
        }
        k = k + 1;
    }
    None
}

/// What an instance's `info` file holds, each value looked up by group
/// and key.
#[derive(Debug, Clone, PartialEq, Eq)]
pub struct InstanceInfo {
    /// `instance-id` of `[Instance]`.
    pub instance_id: Option<String>,
    /// Whether the file has an `[Application]` group.
    pub has_application_group: bool,
    /// `name` of `[Application]`.
    pub application_name: Option<String>,
    /// `runtime` of `[Runtime]`.
    pub runtime: Option<String>,
    /// `arch` of `[Instance]`.
    pub arch: Option<String>,
    /// `branch` of `[Instance]`.
    pub branch: Option<String>,
    /// `app-commit` of `[Instance]`.
    pub app_commit: Option<String>,
    /// `instance-path` of `[Instance]`.
    pub instance_path: Option<String>,
}

/// The last `/`-separated component of `d` (all of it without a `/`).
pub open spec fn last_component(d: Seq<char>) -> Seq<char> {
    let k = rfind_char(d, '/', d.len() as int);
    if k < 0 {
        d
    } else {
        d.subrange(k + 1, d.len() as int)
    }
}

/// The text of `o`, or `d` when it is absent.
pub open spec fn text_or(o: Option<String>, d: Seq<char>) -> Seq<char> {
    match o {
        Some(s) => s@,
        None => d,
    }
}

/// What [`FlatpakInstance::new`] gives for the instance directory `dir`
/// whose `info` file holds `info`: the instance ID must be there, and the
/// application's name (or, without an `[Application]` group, the
/// runtime); the instance is then named by the directory's last
/// component, missing `arch`, `branch` and `app-commit` are empty and a
/// missing `instance-path` is the directory itself.
pub open spec fn instance_result(dir: Seq<char>, info: InstanceInfo, r: XdpResult<FlatpakInstance>) -> bool {
    let path = dir + "/info"@;
    if info.instance_id is None {
        r matches Err(PortalError::NotFound(m)) && m@ == "Missing instance-id in "@ + path
    } else if info.has_application_group && info.application_name is None {
        r matches Err(PortalError::NotFound(m)) && m@ == "Missing name in "@ + path
    } else if !info.has_application_group && info.runtime is None {
        r matches Err(PortalError::NotFound(m)) && m@ == "Missing runtime in "@ + path
    } else {
        r matches Ok(x) && {
            &&& x.id@ == last_component(dir)
            &&& x.app_id@ == if info.has_application_group { info.application_name.unwrap()@ } else { info.runtime.unwrap()@ }
            &&& x.ref_type@ == if info.has_application_group { "app"@ } else { "runtime"@ }
            &&& x.arch@ == text_or(info.arch, seq![])
            &&& x.branch@ == text_or(info.branch, seq![])
            &&& x.commit@ == text_or(info.app_commit, seq![])
            &&& x.instance_path@ == text_or(info.instance_path, dir)
        }
    }
}

/// The text of `o`, or `d` when it is absent.
fn text_or_default(o: &Option<String>, d: &str) -> (r: String)
    ensures
        r@ == text_or(*o, d@),
{
    match o {
        Some(s) => s.clone(),
        None => String::from_str(d),
    }
}

impl FlatpakInstance {
    /// Builds the record of the instance in directory `dir` from what its
    /// `info` file holds (see [`instance_result`]).
    pub fn new(dir: &str, info: &InstanceInfo) -> (r: XdpResult<FlatpakInstance>)
        ensures
            instance_result(dir@, *info, r),
    {
        if info.instance_id.is_none() {
            let mut m = String::from_str("Missing instance-id in ");
            m.append(dir);
            m.append("/info");
            proof {
                assert(m@ =~= "Missing instance-id in "@ + (dir@ + "/info"@));
            }
            return Err(PortalError::NotFound(m));
        }
        let (app_id, ref_type) = if info.has_application_group {
            match &info.application_name {
                Some(n) => (n.clone(), String::from_str("app")),
                None => {
                    let mut m = String::from_str("Missing name in ");
                    m.append(dir);
                    m.append("/info");
                    proof {
                        assert(m@ =~= "Missing name in "@ + (dir@ + "/info"@));
                    }
                    return Err(PortalError::NotFound(m));
                },
            }
        } else {
            match &info.runtime {
                Some(n) => (n.clone(), String::from_str("runtime")),
                None => {
                    let mut m = String::from_str("Missing runtime in ");
                    m.append(dir);
                    m.append("/info");
                    proof {
                        assert(m@ =~= "Missing runtime in "@ + (dir@ + "/info"@));
                    }
                    return Err(PortalError::NotFound(m));
                },
            }
        };
        let cs = str_chars(dir);
        let start: usize = match rfind_in(cs.as_slice(), '/', cs.len()) {
            Some(k) => k + 1,
            None => 0,
        };
        let id = String::from_str(dir.substring_char(start, cs.len()));
        proof {
            reveal_strlit("");
            assert(id@ =~= last_component(dir@));
        }
        let arch = text_or_default(&info.arch, "");
        let branch = text_or_default(&info.branch, "");
        let commit = text_or_default(&info.app_commit, "");
        let instance_path = text_or_default(&info.instance_path, dir);
        proof {
            assert(""@ =~= Seq::<char>::empty());
        }
        Ok(FlatpakInstance { id, app_id, arch, branch, commit, instance_path, ref_type })
    }
}

} // verus!
