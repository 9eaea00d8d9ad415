//! Which capabilities may be granted: each capability has a level of
//! danger, and each level its own rule; anything not listed counts as
//! sensitive, so that what is unknown is refused by default.

use vstd::prelude::*;

use super::db::{db_allows, AllowDb, DbView};
use super::protocol::SubjectType;
use crate::text::str_eq;

verus! {

/// How dangerous a capability is.
#[derive(Debug, Clone, Copy, PartialEq, Eq, Structural)]
pub enum CapabilityLevel {
    Normal,
    Sensitive,
    Privileged,
    Dangerous,
}

pub open spec fn is_normal_cap(cap: Seq<char>) -> bool {
    cap == "ipc.client"@
        || cap == "ipc.server"@
        || cap == "process.spawn"@
        || cap == "process.inspect"@
        || cap == "fs.read.user.documents"@
        || cap == "fs.write.user.documents"@
        || cap == "window.create"@
        || cap == "audio.playback"@
        || cap == "notification.send"@
        || cap == "system.time.read"@
        || cap == "system.info.read"@
        || cap == "account.self.read"@
}

pub open spec fn is_sensitive_cap(cap: Seq<char>) -> bool {
    cap == "clipboard.read"@
        || cap == "audio.record"@
        || cap == "camera.access"@
        || cap == "microphone.access"@
        || cap == "location.access"@
        || cap == "display.capture"@
        || cap == "window.capture"@
        || cap == "input.keyboard.global"@
        || cap == "input.pointer.global"@
        || cap == "fs.read.user"@
        || cap == "fs.write.user"@
        || cap == "net.listen"@
}

pub open spec fn is_privileged_cap(cap: Seq<char>) -> bool {
    cap == "fs.read.all"@
        || cap == "fs.write.all"@
        || cap == "net.raw"@
        || cap == "process.kill"@
        || cap == "service.register"@
        || cap == "service.control"@
        || cap == "package.install"@
        || cap == "package.remove"@
        || cap == "package.update"@
        || cap == "device.storage"@
        || cap == "device.gpu"@
        || cap == "device.input"@
        || cap == "device.audio"@
        || cap == "device.net"@
        || cap == "system.time.set"@
        || cap == "system.logs.read"@
}

pub open spec fn is_dangerous_cap(cap: Seq<char>) -> bool {
    cap == "kernel.module.load"@
        || cap == "kernel.debug"@
        || cap == "unsandboxed"@
        || cap == "developer.debug"@
        || cap == "developer.tracing"@
}

/// The level of capability `cap`; unlisted ones are sensitive.
pub open spec fn level_of(cap: Seq<char>) -> CapabilityLevel {
    if is_normal_cap(cap) {
        CapabilityLevel::Normal
    } else if is_sensitive_cap(cap) {
        CapabilityLevel::Sensitive
    } else if is_privileged_cap(cap) {
        CapabilityLevel::Privileged
    } else if is_dangerous_cap(cap) {
        CapabilityLevel::Dangerous
    } else {
        CapabilityLevel::Sensitive
    }
}

/// The level of capability `cap`.
pub fn classify(cap: &str) -> (r: CapabilityLevel)
    ensures
        r == level_of(cap@),
{
    if str_eq(cap, "ipc.client")
        || str_eq(cap, "ipc.server")
        || str_eq(cap, "process.spawn")
        || str_eq(cap, "process.inspect")
        || str_eq(cap, "fs.read.user.documents")
        || str_eq(cap, "fs.write.user.documents")
        || str_eq(cap, "window.create")
        || str_eq(cap, "audio.playback")
        || str_eq(cap, "notification.send")
        || str_eq(cap, "system.time.read")
        || str_eq(cap, "system.info.read")
        || str_eq(cap, "account.self.read") {
        CapabilityLevel::Normal
    } else if str_eq(cap, "clipboard.read")
        || str_eq(cap, "audio.record")
        || str_eq(cap, "camera.access")
        || str_eq(cap, "microphone.access")
        || str_eq(cap, "location.access")
        || str_eq(cap, "display.capture")
        || str_eq(cap, "window.capture")
        || str_eq(cap, "input.keyboard.global")
        || str_eq(cap, "input.pointer.global")
        || str_eq(cap, "fs.read.user")
        || str_eq(cap, "fs.write.user")
        || str_eq(cap, "net.listen") {
        CapabilityLevel::Sensitive
    } else if str_eq(cap, "fs.read.all")
        || str_eq(cap, "fs.write.all")
        || str_eq(cap, "net.raw")
        || str_eq(cap, "process.kill")
        || str_eq(cap, "service.register")
        || str_eq(cap, "service.control")
        || str_eq(cap, "package.install")
        || str_eq(cap, "package.remove")
        || str_eq(cap, "package.update")
        || str_eq(cap, "device.storage")
        || str_eq(cap, "device.gpu")
        || str_eq(cap, "device.input")
        || str_eq(cap, "device.audio")
        || str_eq(cap, "device.net")
        || str_eq(cap, "system.time.set")
        || str_eq(cap, "system.logs.read") {
        CapabilityLevel::Privileged
    } else if str_eq(cap, "kernel.module.load")
        || str_eq(cap, "kernel.debug")
        || str_eq(cap, "unsandboxed")
        || str_eq(cap, "developer.debug")
        || str_eq(cap, "developer.tracing") {
        CapabilityLevel::Dangerous
    } else {
        CapabilityLevel::Sensitive
    }
}

/// `c` is `w`, or its capital when `w` is a small ASCII letter.
pub open spec fn same_ignoring_case(c: char, w: char) -> bool {
    c == w || ('A' <= c && c <= 'Z' && (c as u32) + 32 == (w as u32))
}

/// The text of a developer switch turns it on: `1` or `true` (in any case),
/// white space around it aside.
pub open spec fn spec_switch_on(text: Seq<char>) -> bool {
    let t = crate::text::trimmed(text);
    t == "1"@ || (t.len() == 4 && forall|i: int| 0 <= i < 4 ==> #[trigger] same_ignoring_case(t[i], "true"@[i]))
}

/// Whether the text of a developer switch file turns the switch on.
pub fn switch_is_on(text: &str) -> (r: bool)
    ensures
        r == spec_switch_on(text@),
{
    proof {
        reveal_strlit("1");
        reveal_strlit("true");
    }
    let t = crate::text::str_trim(text);
    if str_eq(t, "1") {
        return true;
    }
    if t.unicode_len() != 4 {
        return false;
    }
    let want = "true";
    proof {
        assert("true"@ =~= seq!['t', 'r', 'u', 'e']);
    }
    let mut i: usize = 0;
    while i < 4
        invariant
            i <= 4,
            t@.len() == 4,
            want@ == "true"@,
            "true"@ == seq!['t', 'r', 'u', 'e'],
            t@ == crate::text::trimmed(text@),
            t@ != "1"@,
            forall|k: int| 0 <= k < i ==> #[trigger] same_ignoring_case(t@[k], "true"@[k]),
        decreases 4 - i,
    {
        let c = t.get_char(i);
        let w = want.get_char(i);
        if !(c == w || ('A' <= c && c <= 'Z' && (c as u32) + 32 == (w as u32))) {
            proof {
                assert(!same_ignoring_case(t@[i as int], "true"@[i as int]));
            }
            return false;
        }
        i = i + 1;
    }
    true
}

/// The services the system cannot start without, trusted with privileged
/// capabilities before any signature check exists.
pub open spec fn is_trusted_service(id: Seq<char>) -> bool {
    id == "core.service"@
        || id == "capability.service"@
        || id == "driver.service"@
        || id == "disk.service"@
        || id == "process.service"@
        || id == "device.service"@
        || id == "net.service"@
        || id == "window.service"@
        || id == "shell.service"@
}

/// Whether service `id` is one of those trusted at boot.
pub fn is_bootstrap_trusted_service(id: &str) -> (r: bool)
    ensures
        r == is_trusted_service(id@),
{
    str_eq(id, "core.service")
        || str_eq(id, "capability.service")
        || str_eq(id, "driver.service")
        || str_eq(id, "disk.service")
        || str_eq(id, "process.service")
        || str_eq(id, "device.service")
        || str_eq(id, "net.service")
        || str_eq(id, "window.service")
        || str_eq(id, "shell.service")
}

/// The rule for granting `cap` to a subject: normal ones always; sensitive
/// ones where the allow list says so or the developer switch for them is
/// on; privileged ones to trusted services or where the allow list says
/// so; dangerous ones only to a service that the allow list names, with
/// the developer switch for them on.
pub open spec fn grant_rule(
    db: DbView,
    subject_type: SubjectType,
    subject_id: Seq<char>,
    cap: Seq<char>,
    allow_sensitive: bool,
    allow_dangerous: bool,
) -> bool {
    match level_of(cap) {
        CapabilityLevel::Normal => true,
        CapabilityLevel::Sensitive => db_allows(db, subject_type, subject_id, cap) || allow_sensitive,
        CapabilityLevel::Privileged => (subject_type == SubjectType::Service && is_trusted_service(
            subject_id,
        )) || db_allows(db, subject_type, subject_id, cap),
        CapabilityLevel::Dangerous => subject_type == SubjectType::Service && db_allows(
            db,
            subject_type,
            subject_id,
            cap,
        ) && allow_dangerous,
    }
}

/// Whether `cap` may be granted to the subject; `allow_sensitive` and
/// `allow_dangerous` are the developer switches that let such capabilities
/// through.
pub fn should_grant(
    subject_type: SubjectType,
    subject_id: &str,
    cap: &str,
    db: &AllowDb,
    allow_sensitive: bool,
    allow_dangerous: bool,
) -> (r: bool)
    requires
        db.wf(),
    ensures
        r == grant_rule(db@, subject_type, subject_id@, cap@, allow_sensitive, allow_dangerous),
{
    match classify(cap) {
        CapabilityLevel::Normal => true,
        CapabilityLevel::Sensitive => db.allows(subject_type, subject_id, cap) || allow_sensitive,
        CapabilityLevel::Privileged => (subject_type == SubjectType::Service
            && is_bootstrap_trusted_service(subject_id)) || db.allows(subject_type, subject_id, cap),
        CapabilityLevel::Dangerous => subject_type == SubjectType::Service && db.allows(
            subject_type,
            subject_id,
            cap,
        ) && allow_dangerous,
    }
}

/// The everyday capabilities are granted to every program, app or
/// service, whatever the allow list and the developer switches say:
/// talking over IPC as client or server, starting and inspecting
/// processes, reading and writing the user's documents, creating windows,
/// playing sound, sending notifications, reading the time and system
/// information, and reading one's own account.
pub proof fn law_everyday_capabilities_granted_to_all(
    db: DbView,
    subject_type: SubjectType,
    subject_id: Seq<char>,
    cap: Seq<char>,
    allow_sensitive: bool,
    allow_dangerous: bool,
)
    requires
        cap == "ipc.client"@ || cap == "ipc.server"@ || cap == "process.spawn"@ || cap
            == "process.inspect"@ || cap == "fs.read.user.documents"@ || cap
            == "fs.write.user.documents"@ || cap == "window.create"@ || cap == "audio.playback"@
            || cap == "notification.send"@ || cap == "system.time.read"@ || cap
            == "system.info.read"@ || cap == "account.self.read"@,
    ensures
        level_of(cap) == CapabilityLevel::Normal,
        grant_rule(db, subject_type, subject_id, cap, allow_sensitive, allow_dangerous),
{
}

/// Nothing dangerous is ever granted to an app, and nothing dangerous to a
/// service without both the allow list and the developer switch.
pub proof fn law_dangerous_needs_service_list_and_switch(
    db: DbView,
    subject_type: SubjectType,
    subject_id: Seq<char>,
    cap: Seq<char>,
    allow_sensitive: bool,
    allow_dangerous: bool,
)
    requires
        level_of(cap) == CapabilityLevel::Dangerous,
        grant_rule(db, subject_type, subject_id, cap, allow_sensitive, allow_dangerous),
    ensures
        subject_type == SubjectType::Service,
        db_allows(db, subject_type, subject_id, cap),
        allow_dangerous,
{
}

/// A capability that the allow list does not name, with both developer
/// switches off, is granted only where it is normal, or privileged and
/// asked for by a trusted service.
pub proof fn law_deny_by_default(
    db: DbView,
    subject_type: SubjectType,
    subject_id: Seq<char>,
    cap: Seq<char>,
)
    requires
        !db_allows(db, subject_type, subject_id, cap),
        grant_rule(db, subject_type, subject_id, cap, false, false),
    ensures
        level_of(cap) == CapabilityLevel::Normal || (level_of(cap) == CapabilityLevel::Privileged
            && subject_type == SubjectType::Service && is_trusted_service(subject_id)),
{
}

} // verus!
