//! Manifests of services and apps: a small TOML-like text with a main
//! section (`[service]` or `[app]`) holding `id` (and, for apps, `entry`),
//! and a `[capabilities]` section whose `required = [ ... ]` list names
//! one capability per line.

use vstd::prelude::*;
use vstd::string::StrSliceExecFns;

use crate::capability::service::texts;
use crate::text::{
    find_char_from, lemma_find_char_from, split_from, str_contains_char, str_eq,
    str_find_char_from, str_starts_with, str_strip_all, str_strip_all_end, str_trim, strip_all,
    strip_all_end, trimmed,
};

verus! {

/// Where a manifest reader stands after some lines, and what it found.
pub struct ManifestState {
    pub in_main: bool,
    pub in_caps: bool,
    pub collecting: bool,
    pub id: Option<Seq<char>>,
    pub entry: Option<Seq<char>>,
    pub required: Seq<Seq<char>>,
}

/// A value with its quotes taken off: surrounding white space, then double
/// quotes, then single quotes.
pub open spec fn unquoted(v: Seq<char>) -> Seq<char> {
    strip_all(strip_all(trimmed(v), '"'), '\'')
}

/// The value of a `key = value` line, given what follows the key: the
/// unquoted text after the first `=`, if there is one.
pub open spec fn value_after_key(rest: Seq<char>) -> Option<Seq<char>> {
    let e = find_char_from(rest, '=', 0);
    if e >= rest.len() {
        None
    } else {
        Some(unquoted(rest.subrange(e + 1, rest.len() as int)))
    }
}

/// The state before any line.
pub open spec fn manifest_start() -> ManifestState {
    ManifestState {
        in_main: false,
        in_caps: false,
        collecting: false,
        id: None,
        entry: None,
        required: Seq::empty(),
    }
}

/// The state after line `raw`, reading a manifest whose main section is
/// `main` (whose `entry` key counts where `with_entry`).
pub open spec fn manifest_step(st: ManifestState, raw: Seq<char>, main: Seq<char>, with_entry: bool) -> ManifestState {
    let line = trimmed(raw);
    if line.len() == 0 || line[0] == '#' {
        st
    } else if line[0] == '[' && line.last() == ']' {
        let sec = line.subrange(1, line.len() - 1);
        ManifestState { in_main: sec == main, in_caps: sec == "capabilities"@, collecting: false, ..st }
    } else {
        let st1 = if st.in_main {
            if "id"@.is_prefix_of(line) {
                match value_after_key(line.subrange("id"@.len() as int, line.len() as int)) {
                    Some(v) => if v.len() > 0 {
                        ManifestState { id: Some(v), ..st }
                    } else {
                        st
                    },
                    None => st,
                }
            } else if with_entry && "entry"@.is_prefix_of(line) {
                match value_after_key(line.subrange("entry"@.len() as int, line.len() as int)) {
                    Some(v) => if v.len() > 0 {
                        ManifestState { entry: Some(v), ..st }
                    } else {
                        st
                    },
                    None => st,
                }
            } else {
                st
            }
        } else {
            st
        };
        if st1.in_caps {
            if st1.collecting {
                if line[0] == ']' {
                    ManifestState { collecting: false, ..st1 }
                } else {
                    let v = unquoted(strip_all_end(line, ','));
                    if v.len() > 0 {
                        ManifestState { required: st1.required.push(v), ..st1 }
                    } else {
                        st1
                    }
                }
            } else if "required"@.is_prefix_of(line) && line.contains('[') {
                ManifestState { collecting: true, ..st1 }
            } else {
                st1
            }
        } else {
            st1
        }
    }
}

/// The state after `lines`, one after another.
pub open spec fn manifest_of_lines(lines: Seq<Seq<char>>, main: Seq<char>, with_entry: bool) -> ManifestState
    decreases lines.len(),
{
    if lines.len() == 0 {
        manifest_start()
    } else {
        manifest_step(manifest_of_lines(lines.drop_last(), main, with_entry), lines.last(), main, with_entry)
    }
}

/// Capabilities are collected only from a list that a line starting with
/// `required` opens: where no line of a manifest starts so (once trimmed),
/// its required list is empty, whatever other lists it holds.
pub proof fn law_only_required_lists_count(lines: Seq<Seq<char>>, main: Seq<char>, with_entry: bool)
    requires
        forall|k: int| 0 <= k < lines.len() ==> !"required"@.is_prefix_of(#[trigger] trimmed(lines[k])),
    ensures
        manifest_of_lines(lines, main, with_entry).required.len() == 0,
        !manifest_of_lines(lines, main, with_entry).collecting,
    decreases lines.len(),
{
    if lines.len() > 0 {
        let init = lines.drop_last();
        assert forall|k: int| 0 <= k < init.len() implies !"required"@.is_prefix_of(
            #[trigger] trimmed(init[k]),
        ) by {
            assert(init[k] == lines[k]);
        }
        law_only_required_lists_count(init, main, with_entry);
        assert(!"required"@.is_prefix_of(trimmed(lines[lines.len() - 1])));
    }
}

/// What manifest text `text` gives.
pub open spec fn manifest_of_text(text: Seq<char>, main: Seq<char>, with_entry: bool) -> ManifestState {
    manifest_of_lines(split_from(text, '\n', 0), main, with_entry)
}

struct Reader {
    in_main: bool,
    in_caps: bool,
    collecting: bool,
    id: Option<String>,
    entry: Option<String>,
    required: Vec<String>,
}

spec fn opt_text(o: Option<String>) -> Option<Seq<char>> {
    match o {
        Some(s) => Some(s@),
        None => None,
    }
}

impl View for Reader {
    type V = ManifestState;

    closed spec fn view(&self) -> ManifestState {
        ManifestState {
            in_main: self.in_main,
            in_caps: self.in_caps,
            collecting: self.collecting,
            id: opt_text(self.id),
            entry: opt_text(self.entry),
            required: texts(self.required@),
        }
    }
}

/// The value of a `key = value` line after the key.
fn read_value(rest: &str) -> (r: Option<&str>)
    ensures
        match r {
            Some(v) => value_after_key(rest@) == Some(v@),
            None => value_after_key(rest@) is None,
        },
{
    let n = rest.unicode_len();
    proof {
        lemma_find_char_from(rest@, '=', 0);
    }
    let e = str_find_char_from(rest, '=', 0);
    if e >= n {
        return None;
    }
    let rhs = rest.substring_char(e + 1, n);
    Some(str_strip_all(str_strip_all(str_trim(rhs), '"'), '\''))
}

impl Reader {
    fn step(&mut self, raw: &str, main: &str, with_entry: bool)
        ensures
            final(self)@ == manifest_step(old(self)@, raw@, main@, with_entry),
    {
        let line = str_trim(raw);
        let n = line.unicode_len();
        if n == 0 || line.get_char(0) == '#' {
            return;
        }
        if line.get_char(0) == '[' && line.get_char(n - 1) == ']' {
            proof {
                assert(line@.last() == line@[n - 1]);
            }
            if n >= 2 {
                let sec = line.substring_char(1, n - 1);
                self.in_main = str_eq(sec, main);
                self.in_caps = str_eq(sec, "capabilities");
                self.collecting = false;
            }
            return;
        }
        proof {
            if n > 0 {
                assert(line@.last() == line@[n - 1]);
            }
            reveal_strlit("id");
            reveal_strlit("entry");
        }
        if self.in_main {
            if str_starts_with(line, "id") {
                match read_value(line.substring_char(2, n)) {
                    Some(v) => if v.unicode_len() > 0 {
                        self.id = Some(v.to_owned());
                    },
                    None => {},
                }
            } else if with_entry && str_starts_with(line, "entry") {
                match read_value(line.substring_char(5, n)) {
                    Some(v) => if v.unicode_len() > 0 {
                        self.entry = Some(v.to_owned());
                    },
                    None => {},
                }
            }
        }
        if self.in_caps {
            if self.collecting {
                if line.get_char(0) == ']' {
                    self.collecting = false;
                    return;
                }
                let v = str_strip_all(str_strip_all(str_trim(str_strip_all_end(line, ',')), '"'), '\'');
                if v.unicode_len() > 0 {
                    let ghost before = self.required@;
                    self.required.push(v.to_owned());
                    proof {
                        assert(texts(self.required@) =~= texts(before).push(v@));
                    }
                }
            } else if str_starts_with(line, "required") && str_contains_char(line, '[') {
                self.collecting = true;
            }
        }
    }

    /// Reads all of `text`.
    fn read(text: &str, main: &str, with_entry: bool) -> (r: Self)
        ensures
            r@ == manifest_of_text(text@, main@, with_entry),
    {
        let n = text.unicode_len();
        let mut rd = Reader {
            in_main: false,
            in_caps: false,
            collecting: false,
            id: None,
            entry: None,
            required: Vec::new(),
        };
        proof {
            assert(texts(rd.required@) =~= Seq::<Seq<char>>::empty());
            assert(rd@ == manifest_start());
        }
        let mut from: usize = 0;
        let ghost lines = split_from(text@, '\n', 0);
        let ghost mut done: Seq<Seq<char>> = Seq::empty();
        let mut finished = false;
        while !finished
            invariant
                n == text@.len(),
                lines == split_from(text@, '\n', 0),
                rd@ == manifest_of_lines(done, main@, with_entry),
                !finished ==> from <= n,
                !finished ==> done + split_from(text@, '\n', from as int) == lines,
                finished ==> done == lines,
            decreases n + 1 - from, if finished { 0int } else { 1int },
        {
            proof {
                lemma_find_char_from(text@, '\n', from as int);
            }
            let i = str_find_char_from(text, '\n', from);
            let raw = text.substring_char(from, i);
            let ghost d0 = done;
            rd.step(raw, main, with_entry);
            proof {
                done = done.push(raw@);
                assert(done.drop_last() =~= d0);
            }
            if i >= n {
                finished = true;
                proof {
                    assert(split_from(text@, '\n', from as int) == seq![text@.subrange(from as int, n as int)]);
                    assert(done =~= lines);
                }
            } else {
                proof {
                    assert(split_from(text@, '\n', from as int) == seq![text@.subrange(from as int, i as int)]
                        + split_from(text@, '\n', i + 1));
                    assert(d0 + split_from(text@, '\n', from as int) =~= done + split_from(
                        text@,
                        '\n',
                        i + 1,
                    ));
                }
                from = i + 1;
            }
        }
        rd
    }
}

/// The id and the required capabilities of service manifest `text`; `None`
/// where it names no id.
pub fn parse_service_id_and_required_caps(text: &str) -> (r: Option<(String, Vec<String>)>)
    ensures
        ({
            let st = manifest_of_text(text@, "service"@, false);
            match r {
                Some((id, required)) => st.id == Some(id@) && texts(required@) == st.required,
                None => st.id is None,
            }
        }),
{
    let rd = Reader::read(text, "service", false);
    match rd.id {
        Some(id) => Some((id, rd.required)),
        None => None,
    }
}

/// The id, the entry point and the required capabilities of app manifest
/// `text`; `None` where it names no id or no entry.
pub fn parse_app_manifest(text: &str) -> (r: Option<(String, String, Vec<String>)>)
    ensures
        ({
            let st = manifest_of_text(text@, "app"@, true);
            match r {
                Some((id, entry, required)) => st.id == Some(id@) && st.entry == Some(entry@) && texts(
                    required@,
                ) == st.required,
                None => st.id is None || st.entry is None,
            }
        }),
{
    let rd = Reader::read(text, "app", true);
    match rd.id {
        Some(id) => match rd.entry {
            Some(entry) => Some((id, entry, rd.required)),
            None => None,
        },
        None => None,
    }
}

} // verus!
