//! The sink file manager: which log file an event belongs to, when the
//! set of open handles must be rotated, and the paths to open.
//!
//! Rotation is by calendar day in UTC, checked on every event. The
//! manager owns no file handles itself; it tells its caller which keyed
//! paths to (re)open, replacing the previous set entirely.

use vstd::prelude::*;
use vstd::utf8::encode_utf8;
use vstd::string::StringExecFns;
use crate::date::{spec_file_name_for_millis, file_name_for_millis};
use crate::text::{bytes_eq, str_bytes};
use vstd::slice::slice_to_vec;

verus! {

/// The path of a log file: the target directory, an optional per-source
/// subdirectory, and the file name.
pub open spec fn spec_log_path(dir: Seq<char>, sub: Option<Seq<char>>, name: Seq<u8>) -> Seq<u8> {
    encode_utf8(dir) + (match sub {
        Some(s) => seq![0x2fu8] + encode_utf8(s),
        None => Seq::empty(),
    }) + seq![0x2fu8] + name
}

/// The per-source directory of a server.
pub open spec fn spec_server_dir(dir: Seq<char>, server: Seq<char>) -> Seq<u8> {
    encode_utf8(dir) + seq![0x2fu8] + encode_utf8(server)
}

/// Builds the path of a log file.
pub fn log_path(dir: &str, sub: Option<&str>, name: &[u8]) -> (r: Vec<u8>)
    ensures
        match sub {
            Some(s) => r@ == spec_log_path(dir@, Some(s@), name@),
            None => r@ == spec_log_path(dir@, None, name@),
        },
{
    let mut out = str_bytes(dir);
    match sub {
        Some(s) => {
            out.push(0x2f);
            let mut part = str_bytes(s);
            out.append(&mut part);
        },
        None => {},
    }
    out.push(0x2f);
    let mut part = slice_to_vec(name);
    out.append(&mut part);
    proof {
        match sub {
            Some(s) => assert(out@ =~= spec_log_path(dir@, Some(s@), name@)),
            None => assert(out@ =~= spec_log_path(dir@, None, name@)),
        }
    }
    out
}

/// Builds the per-source directory of a server.
pub fn server_dir(dir: &str, server: &str) -> (r: Vec<u8>)
    ensures
        r@ == spec_server_dir(dir@, server@),
{
    let mut out = str_bytes(dir);
    out.push(0x2f);
    let mut part = str_bytes(server);
    out.append(&mut part);
    proof {
        assert(out@ =~= spec_server_dir(dir@, server@));
    }
    out
}

/// The views of configured server names, in order.
pub open spec fn names_views(names: Seq<String>) -> Seq<Seq<char>> {
    Seq::new(names.len(), |i: int| names[i]@)
}

/// The views of keyed paths, in order.
pub open spec fn opens_views(v: Seq<(String, Vec<u8>)>) -> Seq<(Seq<char>, Seq<u8>)> {
    Seq::new(v.len(), |i: int| (v[i].0@, v[i].1@))
}

/// The keyed paths a rotation must open: one per configured source when
/// per-source directories are on, one shared file keyed `all` when off.
pub open spec fn spec_rotation_opens(
    dir: Seq<char>,
    per_server: bool,
    names: Seq<Seq<char>>,
    file: Seq<u8>,
) -> Seq<(Seq<char>, Seq<u8>)> {
    if per_server {
        Seq::new(names.len(), |i: int| (names[i], spec_log_path(dir, Some(names[i]), file)))
    } else {
        seq![("all"@, spec_log_path(dir, None, file))]
    }
}

/// What the caller must do for one event: open these keyed paths (none
/// when no rotation is due), then append the record under this key.
pub struct SinkPlan {
    pub opens: Vec<(String, Vec<u8>)>,
    pub file_key: String,
}

/// Decides log file identity and rotation; owns the current file name.
pub struct SinkFileManager {
    current_name: Vec<u8>,
    target_directory: String,
    per_server: bool,
    server_names: Vec<String>,
}

impl SinkFileManager {
    /// The date-stamped name the open handles were last keyed to; empty
    /// before the first event.
    pub closed spec fn spec_current_name(&self) -> Seq<u8> {
        self.current_name@
    }

    pub closed spec fn spec_target_directory(&self) -> Seq<char> {
        self.target_directory@
    }

    pub closed spec fn spec_per_server(&self) -> bool {
        self.per_server
    }

    pub closed spec fn spec_server_names(&self) -> Seq<Seq<char>> {
        names_views(self.server_names@)
    }

    /// A manager that has opened nothing yet.
    pub fn new(target_directory: String, per_server: bool, server_names: Vec<String>) -> (r:
        SinkFileManager)
        ensures
            r.spec_current_name() == Seq::<u8>::empty(),
            r.spec_target_directory() == target_directory@,
            r.spec_per_server() == per_server,
            r.spec_server_names() == names_views(server_names@),
    {
        let r = SinkFileManager {
            current_name: Vec::new(),
            target_directory,
            per_server,
            server_names,
        };
        proof {
            assert(r.spec_current_name() =~= Seq::<u8>::empty());
        }
        r
    }

    /// Plans the write of one event stamped `millis` from `source`:
    /// rotates to the file of that stamp's UTC day if the current name
    /// differs, and names the key to append under.
    pub fn plan_event(&mut self, source: &String, millis: i64) -> (r: SinkPlan)
        requires
            millis >= 0,
        ensures
            final(self).spec_current_name() == spec_file_name_for_millis(millis as int),
            final(self).spec_target_directory() == old(self).spec_target_directory(),
            final(self).spec_per_server() == old(self).spec_per_server(),
            final(self).spec_server_names() == old(self).spec_server_names(),
            opens_views(r.opens@) == if old(self).spec_current_name() == spec_file_name_for_millis(
                millis as int,
            ) {
                Seq::<(Seq<char>, Seq<u8>)>::empty()
            } else {
                spec_rotation_opens(
                    old(self).spec_target_directory(),
                    old(self).spec_per_server(),
                    old(self).spec_server_names(),
                    spec_file_name_for_millis(millis as int),
                )
            },
            r.file_key@ == if old(self).spec_per_server() {
                source@
            } else {
                "all"@
            },
    {
        let name = file_name_for_millis(millis);
        let mut opens: Vec<(String, Vec<u8>)> = Vec::new();
        if !bytes_eq(name.as_slice(), self.current_name.as_slice()) {
            if self.per_server {
                let n = self.server_names.len();
                let mut i: usize = 0;
                while i < n
                    invariant
                        0 <= i <= n,
                        n == self.server_names@.len(),
                        name@ == spec_file_name_for_millis(millis as int),
                        opens_views(opens@) =~~= spec_rotation_opens(
                            self.spec_target_directory(),
                            true,
                            self.spec_server_names(),
                            name@,
                        ).take(i as int),
                    decreases n - i,
                {
                    let path = log_path(
                        self.target_directory.as_str(),
                        Some(self.server_names[i].as_str()),
                        name.as_slice(),
                    );
                    proof {
                        assert(opens_views(opens@).len() == opens@.len());
                        assert(spec_rotation_opens(
                            self.spec_target_directory(),
                            true,
                            self.spec_server_names(),
                            name@,
                        ).len() == n);
                        assert(opens@.len() == i);
                    }
                    opens.push((self.server_names[i].clone(), path));
                    proof {
                        let full = spec_rotation_opens(
                            self.spec_target_directory(),
                            true,
                            self.spec_server_names(),
                            name@,
                        );
                        assert(opens@.len() == i + 1);
                        assert(opens@[i as int].0@ == self.spec_server_names()[i as int]);
                        assert(opens@[i as int].1@ == spec_log_path(
                            self.spec_target_directory(),
                            Some(self.spec_server_names()[i as int]),
                            name@,
                        ));
                        assert(opens_views(opens@)[i as int] == full[i as int]);
                        assert(opens_views(opens@) =~~= full.take(i + 1));
                    }
                    i = i + 1;
                }
                proof {
                    let full = spec_rotation_opens(
                        self.spec_target_directory(),
                        true,
                        self.spec_server_names(),
                        name@,
                    );
                    assert(full.take(n as int) =~= full);
                    assert(opens_views(opens@) == full);
                }
            } else {
                let path = log_path(self.target_directory.as_str(), None, name.as_slice());
                opens.push((String::from_str("all"), path));
                proof {
                    assert(opens_views(opens@) =~~= spec_rotation_opens(
                        self.spec_target_directory(),
                        false,
                        self.spec_server_names(),
                        name@,
                    ));
                }
            }
            self.current_name = name;
        } else {
            proof {
                assert(opens_views(opens@) =~= Seq::<(Seq<char>, Seq<u8>)>::empty());
            }
            self.current_name = name;
        }
        let file_key = if self.per_server {
            source.clone()
        } else {
            String::from_str("all")
        };
        SinkPlan { opens, file_key }
    }
}

} // verus!
