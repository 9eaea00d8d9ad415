//! The rules by which the core service starts the other services: which
//! paths may be started, in what order, with which capabilities when no
//! manifest says, and when the critical ones count as ready.

use vstd::prelude::*;
use vstd::string::{StrSliceExecFns, StringExecFns};

use crate::capability::service::texts;
use crate::text::{
    lemma_find_char_from, lemma_rfind_char, rfind_char, split_from, str_eq, str_find_char_from,
    str_rfind_char, str_starts_with, str_trim, trimmed,
};

verus! {

/// Operation code by which a service reports that it is ready.
pub const OP_NOTIFY_READY: u64 = 0xFF;

/// The last `/`-separated part of `path` (all of it where it has no `/`).
pub open spec fn last_segment(path: Seq<char>) -> Seq<char> {
    path.subrange(rfind_char(path, '/') + 1, path.len() as int)
}

/// The name of the service at `path`: its last part.
pub fn service_name_from_path(path: &str) -> (r: &str)
    ensures
        r@ == last_segment(path@),
{
    proof {
        lemma_rfind_char(path@, '/');
    }
    let n = path.unicode_len();
    match str_rfind_char(path, '/') {
        Some(k) => path.substring_char(k + 1, n),
        None => path.substring_char(0, n),
    }
}

/// `s` holds two dots in a row.
pub open spec fn has_dot_dot(s: Seq<char>) -> bool {
    exists|i: int| 0 <= i < s.len() - 1 && #[trigger] s[i] == '.' && s[i + 1] == '.'
}

/// The paths from which services may be started: nonempty, no `..`, and
/// under the services directory or `bin`, absolute or relative.
pub open spec fn allowed_service_path(path: Seq<char>) -> bool {
    &&& path.len() > 0
    &&& !has_dot_dot(path)
    &&& ("/system/services/"@.is_prefix_of(path) || "/bin/"@.is_prefix_of(path)
        || "system/services/"@.is_prefix_of(path) || "bin/"@.is_prefix_of(path))
}

/// Whether a service may be started from `path`.
pub fn is_allowed_service_path(path: &str) -> (r: bool)
    ensures
        r == allowed_service_path(path@),
{
    let n = path.unicode_len();
    if n == 0 {
        return false;
    }
    let mut i: usize = 0;
    while i + 1 < n
        invariant
            n == path@.len(),
            i + 1 <= n,
            forall|k: int| 0 <= k < i ==> !(#[trigger] path@[k] == '.' && path@[k + 1] == '.'),
        decreases n - i,
    {
        if path.get_char(i) == '.' && path.get_char(i + 1) == '.' {
            return false;
        }
        i = i + 1;
    }
    str_starts_with(path, "/system/services/") || str_starts_with(path, "/bin/") || str_starts_with(
        path,
        "system/services/",
    ) || str_starts_with(path, "bin/")
}

/// The capabilities a service is started with where its manifest cannot be
/// read, by service name; `None` for services not listed.
pub open spec fn fallback_caps(name: Seq<char>) -> Option<Seq<Seq<char>>> {
    if name == "capability.service"@ {
        Some(seq!["ipc.server"@, "system.info.read"@])
    } else if name == "driver.service"@ {
        Some(seq!["ipc.server"@, "process.spawn"@, "device.storage"@, "device.net"@, "device.input"@])
    } else if name == "disk.service"@ {
        Some(seq!["ipc.server"@, "device.storage"@])
    } else if name == "process.service"@ {
        Some(seq!["ipc.server"@, "process.spawn"@, "process.inspect"@, "process.kill"@])
    } else if name == "device.service"@ {
        Some(seq!["ipc.server"@])
    } else if name == "net.service"@ {
        Some(seq!["ipc.server"@, "device.net"@, "net.raw"@])
    } else if name == "window.service"@ {
        Some(
            seq![
                "ipc.server"@,
                "display.read"@,
                "display.capture"@,
                "input.pointer.global"@,
                "input.keyboard.global"@,
            ],
        )
    } else if name == "shell.service"@ {
        Some(
            seq![
                "ipc.server"@,
                "display.read"@,
                "input.keyboard"@,
                "input.pointer"@,
                "window.create"@,
            ],
        )
    } else {
        None
    }
}

/// How a service is given its capabilities when it is started.
#[derive(Debug)]
pub enum GrantPlan {
    /// Start it with these, without asking (the capability service itself,
    /// which cannot ask itself).
    Direct(Vec<String>),
    /// Ask the capability service to grant these to the service with this
    /// id.
    Ask(String, Vec<String>),
    /// Start it with nothing granted.
    Nothing,
}

/// What a grant plan holds.
pub enum GrantPlanView {
    Direct(Seq<Seq<char>>),
    Ask(Seq<char>, Seq<Seq<char>>),
    Nothing,
}

impl View for GrantPlan {
    type V = GrantPlanView;

    open spec fn view(&self) -> GrantPlanView {
        match self {
            GrantPlan::Direct(v) => GrantPlanView::Direct(texts(v@)),
            GrantPlan::Ask(id, v) => GrantPlanView::Ask(id@, texts(v@)),
            GrantPlan::Nothing => GrantPlanView::Nothing,
        }
    }
}

/// The grant plan of service `name`, given the text of its manifest if it
/// could be read: the capability service gets its manifest's list as it
/// is; any other service asks for its manifest's list under its manifest's
/// id, or else for its fallback list under its own name.
pub open spec fn spec_grant_plan(name: Seq<char>, manifest: Option<Seq<char>>) -> GrantPlanView {
    let parsed = match manifest {
        Some(t) => {
            let st = crate::manifest::manifest_of_text(t, "service"@, false);
            match st.id {
                Some(id) => Some((id, st.required)),
                None => None,
            }
        },
        None => None,
    };
    if name == "capability.service"@ {
        match parsed {
            Some((_, req)) => GrantPlanView::Direct(req),
            None => GrantPlanView::Nothing,
        }
    } else {
        match parsed {
            Some((id, req)) => GrantPlanView::Ask(id, req),
            None => match fallback_caps(name) {
                Some(req) => GrantPlanView::Ask(name, req),
                None => GrantPlanView::Nothing,
            },
        }
    }
}

/// The grant plan of service `name`, given the text of its manifest if it
/// could be read.
pub fn grant_plan(name: &str, manifest: Option<&str>) -> (r: GrantPlan)
    ensures
        r@ == spec_grant_plan(name@, match manifest {
            Some(t) => Some(t@),
            None => None,
        }),
{
    let parsed = match manifest {
        Some(t) => crate::manifest::parse_service_id_and_required_caps(t),
        None => None,
    };
    if str_eq(name, "capability.service") {
        return match parsed {
            Some((_, req)) => GrantPlan::Direct(req),
            None => GrantPlan::Nothing,
        };
    }
    match parsed {
        Some((id, req)) => GrantPlan::Ask(id, req),
        None => match fallback_required_caps_for_service(name) {
            Some(req) => GrantPlan::Ask(name.to_owned(), req),
            None => GrantPlan::Nothing,
        },
    }
}

/// The process names under which a service started from `path` may be
/// running: the path, the service's name, and the name under the services
/// directory.
pub fn running_names(path: &str) -> (r: Vec<String>)
    ensures
        texts(r@) == seq![path@, last_segment(path@), "/system/services/"@ + last_segment(path@)],
{
    let name = service_name_from_path(path);
    let mut under = String::from_str("/system/services/");
    under.append(name);
    let mut out: Vec<String> = Vec::new();
    out.push(path.to_owned());
    out.push(name.to_owned());
    out.push(under);
    proof {
        assert(texts(out@) =~= seq![path@, last_segment(path@), "/system/services/"@ + last_segment(path@)]);
    }
    out
}

/// The drivers started where the driver list cannot be read or names none.
pub open spec fn default_drivers() -> Seq<Seq<char>> {
    seq!["Binaries/drivers/usb.elf"@]
}

/// The drivers to start, from the bytes of the driver list if it could be
/// read: its entries (lines, trimmed, without blank lines and comments)
/// when it is UTF-8 text naming at least one; the default list otherwise.
pub fn driver_list(contents: Option<Vec<u8>>) -> (r: Vec<String>)
    ensures
        ({
            let listed = match contents {
                Some(b) => if vstd::utf8::valid_utf8(b@) {
                    list_entries(split_from(vstd::utf8::decode_utf8(b@), '\n', 0))
                } else {
                    Seq::empty()
                },
                None => Seq::empty(),
            };
            texts(r@) == if listed.len() > 0 {
                listed
            } else {
                default_drivers()
            }
        }),
{
    let listed = match contents {
        Some(b) => match crate::text::string_from_utf8(b) {
            Some(text) => config_lines(text.as_str()),
            None => Vec::new(),
        },
        None => Vec::new(),
    };
    if listed.len() > 0 {
        return listed;
    }
    let v = owned_list(&["Binaries/drivers/usb.elf"]);
    proof {
        assert(texts(v@) =~= default_drivers());
    }
    v
}

/// Strings made of `names`.
fn owned_list(names: &[&str]) -> (r: Vec<String>)
    ensures
        texts(r@) == names@.map_values(|s: &str| s@),
{
    let mut out: Vec<String> = Vec::new();
    let mut i: usize = 0;
    while i < names.len()
        invariant
            i <= names@.len(),
            texts(out@) == names@.map_values(|s: &str| s@).take(i as int),
        decreases names@.len() - i,
    {
        let ghost before = out@;
        let o = names[i].to_owned();
        proof {
            assert(o@ == names@[i as int]@);
        }
        out.push(o);
        proof {
            assert(texts(out@) =~= texts(before).push(o@));
            assert(names@.map_values(|s: &str| s@).take(i + 1) =~= names@.map_values(|s: &str| s@).take(
                i as int,
            ).push(o@));
        }
        i = i + 1;
    }
    proof {
        assert(names@.map_values(|s: &str| s@).take(i as int) =~= names@.map_values(|s: &str| s@));
    }
    out
}

/// The capabilities that service `name` is started with where its manifest
/// cannot be read.
pub fn fallback_required_caps_for_service(name: &str) -> (r: Option<Vec<String>>)
    ensures
        match r {
            Some(v) => fallback_caps(name@) == Some(texts(v@)),
            None => fallback_caps(name@) is None,
        },
{
    if str_eq(name, "capability.service") {
        let v = owned_list(&["ipc.server", "system.info.read"]);
        proof {
            assert(texts(v@) =~= seq!["ipc.server"@, "system.info.read"@]);
        }
        Some(v)
    } else if str_eq(name, "driver.service") {
        let v = owned_list(
            &["ipc.server", "process.spawn", "device.storage", "device.net", "device.input"],
        );
        proof {
            assert(texts(v@) =~= seq![
                "ipc.server"@,
                "process.spawn"@,
                "device.storage"@,
                "device.net"@,
                "device.input"@,
            ]);
        }
        Some(v)
    } else if str_eq(name, "disk.service") {
        let v = owned_list(&["ipc.server", "device.storage"]);
        proof {
            assert(texts(v@) =~= seq!["ipc.server"@, "device.storage"@]);
        }
        Some(v)
    } else if str_eq(name, "process.service") {
        let v = owned_list(&["ipc.server", "process.spawn", "process.inspect", "process.kill"]);
        proof {
            assert(texts(v@) =~= seq![
                "ipc.server"@,
                "process.spawn"@,
                "process.inspect"@,
                "process.kill"@,
            ]);
        }
        Some(v)
    } else if str_eq(name, "device.service") {
        let v = owned_list(&["ipc.server"]);
        proof {
            assert(texts(v@) =~= seq!["ipc.server"@]);
        }
        Some(v)
    } else if str_eq(name, "net.service") {
        let v = owned_list(&["ipc.server", "device.net", "net.raw"]);
        proof {
            assert(texts(v@) =~= seq!["ipc.server"@, "device.net"@, "net.raw"@]);
        }
        Some(v)
    } else if str_eq(name, "window.service") {
        let v = owned_list(
            &[
                "ipc.server",
                "display.read",
                "display.capture",
                "input.pointer.global",
                "input.keyboard.global",
            ],
        );
        proof {
            assert(texts(v@) =~= seq![
                "ipc.server"@,
                "display.read"@,
                "display.capture"@,
                "input.pointer.global"@,
                "input.keyboard.global"@,
            ]);
        }
        Some(v)
    } else if str_eq(name, "shell.service") {
        let v = owned_list(
            &["ipc.server", "display.read", "input.keyboard", "input.pointer", "window.create"],
        );
        proof {
            assert(texts(v@) =~= seq![
                "ipc.server"@,
                "display.read"@,
                "input.keyboard"@,
                "input.pointer"@,
                "window.create"@,
            ]);
        }
        Some(v)
    } else {
        None
    }
}

/// The entries of a list file: its lines without surrounding white space,
/// leaving out empty lines and comments.
pub open spec fn list_entries(lines: Seq<Seq<char>>) -> Seq<Seq<char>>
    decreases lines.len(),
{
    if lines.len() == 0 {
        Seq::empty()
    } else {
        let rest = list_entries(lines.drop_last());
        let t = trimmed(lines.last());
        if t.len() == 0 || t[0] == '#' {
            rest
        } else {
            rest.push(t)
        }
    }
}

/// The entries of list file `text`.
pub fn config_lines(text: &str) -> (r: Vec<String>)
    ensures
        texts(r@) == list_entries(split_from(text@, '\n', 0)),
{
    let n = text.unicode_len();
    let mut out: Vec<String> = Vec::new();
    let mut from: usize = 0;
    let ghost lines = split_from(text@, '\n', 0);
    let ghost mut done: Seq<Seq<char>> = Seq::empty();
    let mut finished = false;
    proof {
        assert(texts(out@) =~= Seq::<Seq<char>>::empty());
    }
    while !finished
        invariant
            n == text@.len(),
            lines == split_from(text@, '\n', 0),
            texts(out@) == list_entries(done),
            !finished ==> from <= n,
            !finished ==> done + split_from(text@, '\n', from as int) == lines,
            finished ==> done == lines,
        decreases n + 1 - from, if finished { 0int } else { 1int },
    {
        proof {
            lemma_find_char_from(text@, '\n', from as int);
        }
        let i = str_find_char_from(text, '\n', from);
        let raw = text.substring_char(from, i);
        let line = str_trim(raw);
        let ghost d0 = done;
        let ghost before = out@;
        if line.unicode_len() > 0 && line.get_char(0) != '#' {
            out.push(line.to_owned());
            proof {
                assert(texts(out@) =~= texts(before).push(line@));
            }
        }
        proof {
            done = done.push(raw@);
            assert(done.drop_last() =~= d0);
        }
        if i >= n {
            finished = true;
            proof {
                assert(split_from(text@, '\n', from as int) == seq![text@.subrange(from as int, n as int)]);
                assert(done =~= lines);
            }
        } else {
            proof {
                assert(split_from(text@, '\n', from as int) == seq![text@.subrange(from as int, i as int)]
                    + split_from(text@, '\n', i + 1));
                assert(d0 + split_from(text@, '\n', from as int) =~= done + split_from(
                    text@,
                    '\n',
                    i + 1,
                ));
            }
            from = i + 1;
        }
    }
    out
}

/// Whether `path` names the disk service, which is started last.
pub open spec fn is_disk_service_path(path: Seq<char>) -> bool {
    "/disk.service"@.is_suffix_of(path) || path == "/system/services/disk.service"@
}

/// Whether `s` ends with `suffix`.
fn str_ends_with(s: &str, suffix: &str) -> (r: bool)
    ensures
        r == suffix@.is_suffix_of(s@),
{
    let n = s.unicode_len();
    let m = suffix.unicode_len();
    if m > n {
        return false;
    }
    let tail = s.substring_char(n - m, n);
    let r = str_eq(tail, suffix);
    proof {
        if r {
            assert(suffix@ =~= s@.subrange(n - m, n as int));
        } else {
            if suffix@.is_suffix_of(s@) {
                assert(tail@ =~= suffix@);
            }
        }
    }
    r
}

/// Whether `path` names the disk service.
pub fn is_disk_service(path: &str) -> (r: bool)
    ensures
        r == is_disk_service_path(path@),
{
    str_ends_with(path, "/disk.service") || str_eq(path, "/system/services/disk.service")
}

/// `paths` in start order: every other service first, the disk service
/// after them, each group in its own order.
pub fn disk_service_last(paths: Vec<String>) -> (r: Vec<String>)
    ensures
        texts(r@) == texts(paths@).filter(|p: Seq<char>| !is_disk_service_path(p)) + texts(
            paths@,
        ).filter(|p: Seq<char>| is_disk_service_path(p)),
{
    let ghost all = texts(paths@);
    let mut first: Vec<String> = Vec::new();
    let mut last: Vec<String> = Vec::new();
    let mut i: usize = 0;
    proof {
        assert(all.take(0) =~= Seq::<Seq<char>>::empty());
        assert(texts(first@) =~= Seq::<Seq<char>>::empty());
        assert(texts(last@) =~= Seq::<Seq<char>>::empty());
    }
    while i < paths.len()
        invariant
            i <= paths@.len(),
            all == texts(paths@),
            texts(first@) == all.take(i as int).filter(|p: Seq<char>| !is_disk_service_path(p)),
            texts(last@) == all.take(i as int).filter(|p: Seq<char>| is_disk_service_path(p)),
        decreases paths@.len() - i,
    {
        let p = paths[i].clone();
        let ghost f0 = first@;
        let ghost l0 = last@;
        let disk = is_disk_service(p.as_str());
        let ghost pv = p@;
        if disk {
            last.push(p);
        } else {
            first.push(p);
        }
        proof {
            reveal(Seq::filter);
            assert(all.take(i + 1).drop_last() =~= all.take(i as int));
            assert(all.take(i + 1).last() == pv);
            assert(texts(first@) =~= if disk { texts(f0) } else { texts(f0).push(pv) });
            assert(texts(last@) =~= if disk { texts(l0).push(pv) } else { texts(l0) });
        }
        i = i + 1;
    }
    proof {
        assert(all.take(i as int) =~= all);
    }
    let mut out = first;
    let ghost f1 = out@;
    let ghost l1 = last@;
    out.append(&mut last);
    proof {
        assert(texts(out@) =~= texts(f1) + texts(l1));
    }
    out
}

/// `s` without the copies of `suffix` at its end (what `str::trim_end_matches`
/// gives for a text pattern).
pub open spec fn strip_suffix_all(s: Seq<char>, suffix: Seq<char>) -> Seq<char>
    decreases s.len(),
{
    if suffix.len() > 0 && suffix.is_suffix_of(s) {
        strip_suffix_all(s.subrange(0, s.len() - suffix.len()), suffix)
    } else {
        s
    }
}

/// `s` without the copies of `suffix` at its end.
fn str_strip_suffix_all<'a>(s: &'a str, suffix: &str) -> (r: &'a str)
    ensures
        r@ == strip_suffix_all(s@, suffix@),
{
    let m = suffix.unicode_len();
    let mut cur = s;
    proof {
        assert(s@.subrange(0, s@.len() as int) =~= s@);
    }
    if m == 0 {
        return s;
    }
    let mut done = false;
    while !done
        invariant
            m == suffix@.len(),
            m > 0,
            strip_suffix_all(s@, suffix@) == strip_suffix_all(cur@, suffix@),
            done ==> !suffix@.is_suffix_of(cur@),
        decreases cur@.len(), if done { 0int } else { 1int },
    {
        if str_ends_with(cur, suffix) {
            let n = cur.unicode_len();
            cur = cur.substring_char(0, n - m);
        } else {
            done = true;
        }
    }
    cur
}

/// The path of the manifest of service `name`: its name without the
/// `.service` ending, in the services directory.
pub open spec fn service_manifest_path_of(name: Seq<char>) -> Seq<char> {
    "/system/services/"@ + strip_suffix_all(name, ".service"@) + ".service.manifest.toml"@
}

/// The path of the manifest of service `name`.
pub fn service_manifest_path(name: &str) -> (r: String)
    ensures
        r@ == service_manifest_path_of(name@),
{
    let base = str_strip_suffix_all(name, ".service");
    let mut out = String::from_str("/system/services/");
    out.append(base);
    out.append(".service.manifest.toml");
    out
}

/// The path of the manifest of the app in directory `path`.
pub open spec fn app_manifest_path_of(path: Seq<char>) -> Seq<char> {
    crate::text::strip_all_end(path, '/') + "/manifest.toml"@
}

/// The path of the manifest of the app in directory `path`.
pub fn app_manifest_path(path: &str) -> (r: String)
    ensures
        r@ == app_manifest_path_of(path@),
{
    let base = crate::text::str_strip_all_end(path, '/');
    let mut out = String::from_str(base);
    out.append("/manifest.toml");
    out
}

/// Bytes in a request to the process service: operation, length and a
/// 512-byte payload.
pub const PROCESS_REQUEST_SIZE: usize = 528;

/// A request to the process service: its operation and the path it names,
/// if the first `len0` bytes of its payload (at most the payload) are UTF-8.
#[derive(Debug)]
pub struct ProcessRequest {
    pub op: u64,
    pub path: Option<String>,
}

/// The request in `b`, or `None` where it is too short to hold one.
pub fn decode_process_request(b: &[u8]) -> (r: Option<ProcessRequest>)
    ensures
        b@.len() < PROCESS_REQUEST_SIZE ==> r is None,
        b@.len() >= PROCESS_REQUEST_SIZE ==> {
            let len0 = crate::bytes::le_u64(b@, 8);
            let n = if (len0 as usize) < 512 {
                len0 as usize as int
            } else {
                512
            };
            let text = b@.subrange(16, 16 + n);
            &&& r is Some
            &&& r->Some_0.op == crate::bytes::le_u64(b@, 0)
            &&& r->Some_0.path is Some <==> vstd::utf8::valid_utf8(text)
            &&& r->Some_0.path is Some ==> r->Some_0.path->Some_0@ == vstd::utf8::decode_utf8(text)
        },
{
    if b.len() < PROCESS_REQUEST_SIZE {
        return None;
    }
    let op = crate::bytes::read_u64_le(b, 0);
    let len0 = crate::bytes::read_u64_le(b, 8);
    let n = if (len0 as usize) < 512 {
        len0 as usize
    } else {
        512
    };
    let mut text: Vec<u8> = Vec::new();
    let mut i: usize = 0;
    while i < n
        invariant
            i <= n,
            n <= 512,
            PROCESS_REQUEST_SIZE <= b@.len(),
            text@ == b@.subrange(16, 16 + i),
        decreases n - i,
    {
        text.push(b[16 + i]);
        i = i + 1;
        proof {
            assert(text@ =~= b@.subrange(16, 16 + i));
        }
    }
    Some(ProcessRequest { op, path: crate::text::string_from_utf8(text) })
}

/// The first index of `x` in `s`, or -1.
pub open spec fn first_index_of(s: Seq<u64>, x: u64) -> int
    decreases s.len(),
{
    if s.len() == 0 {
        -1
    } else {
        let r = first_index_of(s.drop_last(), x);
        if r >= 0 {
            r
        } else if s.last() == x {
            s.len() - 1
        } else {
            -1
        }
    }
}

proof fn lemma_first_index_of(s: Seq<u64>, x: u64)
    ensures
        -1 <= first_index_of(s, x) < s.len(),
        first_index_of(s, x) >= 0 ==> s[first_index_of(s, x)] == x,
        forall|k: int|
            0 <= k < s.len() && (first_index_of(s, x) == -1 || k < first_index_of(s, x)) ==> #[trigger] s[k] != x,
    decreases s.len(),
{
    if s.len() > 0 {
        lemma_first_index_of(s.drop_last(), x);
        assert forall|k: int|
            0 <= k < s.len() && (first_index_of(s, x) == -1 || k < first_index_of(s, x)) implies #[trigger] s[k]
            != x by {
            if k < s.len() - 1 {
                assert(s[k] == s.drop_last()[k]);
            }
        }
    }
}

/// The critical services that have not reported ready yet.
pub struct ReadyWait {
    pending: Vec<u64>,
}

impl View for ReadyWait {
    type V = Seq<u64>;

    closed spec fn view(&self) -> Seq<u64> {
        self.pending@
    }
}

impl ReadyWait {
    /// Waits for the services `expected`, leaving out zeros (services that
    /// were not started).
    pub fn new(expected: &[u64]) -> (r: Self)
        ensures
            r@ == expected@.filter(|p: u64| p != 0),
    {
        let mut pending: Vec<u64> = Vec::new();
        let mut i: usize = 0;
        proof {
            reveal(Seq::filter);
            assert(expected@.take(0).filter(|p: u64| p != 0) =~= Seq::<u64>::empty());
        }
        while i < expected.len()
            invariant
                i <= expected@.len(),
                pending@ == expected@.take(i as int).filter(|p: u64| p != 0),
            decreases expected@.len() - i,
        {
            let p = expected[i];
            if p != 0 {
                pending.push(p);
            }
            proof {
                reveal(Seq::filter);
                assert(expected@.take(i + 1).drop_last() =~= expected@.take(i as int));
            }
            i = i + 1;
        }
        proof {
            assert(expected@.take(i as int) =~= expected@);
        }
        ReadyWait { pending }
    }

    /// Whether every service has reported ready.
    pub fn is_done(&self) -> (r: bool)
        ensures
            r == (self@.len() == 0),
    {
        self.pending.len() == 0
    }

    /// Takes in a message of `len` bytes from `sender` whose first eight
    /// bytes read as `op`: a ready report from a service still waited for
    /// strikes it off (its place taken by the last one); returns whether
    /// one was struck off.
    pub fn on_message(&mut self, sender: u64, len: u64, op: u64) -> (r: bool)
        ensures
            ({
                let p = old(self)@;
                let i = first_index_of(p, sender);
                let hit = sender != 0 && len >= 8 && op == OP_NOTIFY_READY && i >= 0;
                &&& r == hit
                &&& hit ==> final(self)@ == p.update(i, p.last()).drop_last()
                &&& !hit ==> final(self)@ == p
            }),
    {
        proof {
            lemma_first_index_of(self@, sender);
        }
        if sender == 0 || len < 8 || op != OP_NOTIFY_READY {
            return false;
        }
        let mut i: usize = 0;
        while i < self.pending.len()
            invariant
                i <= self.pending@.len(),
                self@ == old(self)@,
                sender != 0 && len >= 8 && op == OP_NOTIFY_READY,
                forall|k: int| 0 <= k < i ==> #[trigger] self.pending@[k] != sender,
            decreases self.pending@.len() - i,
        {
            if self.pending[i] == sender {
                proof {
                    lemma_first_index_of(self@, sender);
                    let f = first_index_of(self@, sender);
                    if f >= 0 && f < i {
                        assert(self.pending@[f] != sender);
                    }
                    if f == -1 || i < f {
                        assert(self@[i as int] != sender);
                    }
                    assert(f == i);
                }
                let ghost before = self.pending@;
                self.pending.swap_remove(i);
                proof {
                    assert(self.pending@ == before.update(i as int, before.last()).drop_last());
                }
                return true;
            }
            i = i + 1;
        }
        proof {
            let f = first_index_of(self@, sender);
            if f >= 0 {
                assert(self.pending@[f] != sender);
            }
        }
        false
    }
}

} // verus!
