//! The registry: the names of all capabilities the system knows, taken
//! from the section headers `[capabilities.<name>]` of its description.

use vstd::prelude::*;
use vstd::string::StrSliceExecFns;

use crate::text::{
    lemma_find_char_from, split_from, str_eq, str_find_char_from, str_starts_with, str_trim,
    trimmed,
};

verus! {

/// The capability that line `raw` declares, if it is a section header
/// `[capabilities.<name>]` with a nonempty name.
pub open spec fn declared_name(raw: Seq<char>) -> Option<Seq<char>> {
    let line = trimmed(raw);
    if line.len() >= 1 && line[0] == '[' && line.last() == ']' {
        let inside = line.subrange(1, line.len() - 1);
        if "capabilities."@.is_prefix_of(inside) {
            let rest = inside.subrange("capabilities."@.len() as int, inside.len() as int);
            if rest.len() > 0 {
                Some(rest)
            } else {
                None
            }
        } else {
            None
        }
    } else {
        None
    }
}

/// The names that `lines` declare.
pub open spec fn names_of_lines(lines: Seq<Seq<char>>) -> Set<Seq<char>>
    decreases lines.len(),
{
    if lines.len() == 0 {
        Set::empty()
    } else {
        let rest = names_of_lines(lines.drop_last());
        match declared_name(lines.last()) {
            Some(n) => rest.insert(n),
            None => rest,
        }
    }
}

/// The names that description `text` declares.
pub open spec fn names_of_text(text: Seq<char>) -> Set<Seq<char>> {
    names_of_lines(split_from(text, '\n', 0))
}

spec fn name_views(v: Seq<String>) -> Seq<Seq<char>> {
    v.map_values(|s: String| s@)
}

/// The capability names the system knows.
#[derive(Debug)]
pub struct CapabilityRegistry {
    names: Vec<String>,
}

impl View for CapabilityRegistry {
    type V = Set<Seq<char>>;

    closed spec fn view(&self) -> Set<Seq<char>> {
        name_views(self.names@).to_set()
    }
}

impl CapabilityRegistry {
    pub closed spec fn wf(&self) -> bool {
        name_views(self.names@).no_duplicates()
    }

    /// Whether `name` is known.
    pub fn contains(&self, name: &str) -> (r: bool)
        ensures
            r == self@.contains(name@),
    {
        let mut i: usize = 0;
        while i < self.names.len()
            invariant
                i <= self.names@.len(),
                forall|k: int| 0 <= k < i ==> #[trigger] self.names@[k]@ != name@,
            decreases self.names@.len() - i,
        {
            if str_eq(self.names[i].as_str(), name) {
                proof {
                    assert(name_views(self.names@)[i as int] == name@);
                }
                return true;
            }
            i = i + 1;
        }
        proof {
            if name_views(self.names@).contains(name@) {
                let j = choose|j: int| 0 <= j < name_views(self.names@).len() && name_views(self.names@)[j] == name@;
                assert(self.names@[j]@ == name@);
            }
        }
        false
    }

    /// Number of names known.
    pub fn len(&self) -> (r: usize)
        requires
            self.wf(),
        ensures
            r == self@.len(),
    {
        proof {
            name_views(self.names@).unique_seq_to_set();
        }
        self.names.len()
    }

    /// Adds `name`, where it is not known yet.
    fn add(&mut self, name: &str)
        requires
            old(self).wf(),
        ensures
            final(self).wf(),
            final(self)@ == old(self)@.insert(name@),
    {
        if self.contains(name) {
            proof {
                assert(self@ =~= old(self)@.insert(name@));
            }
            return;
        }
        let ghost before = name_views(self.names@);
        self.names.push(name.to_owned());
        proof {
            assert(name_views(self.names@) =~= before.push(name@));
            before.lemma_push_to_set_commute(name@);
            assert forall|a: int, b: int| 0 <= a < b < name_views(self.names@).len() implies name_views(
                self.names@,
            )[a] != name_views(self.names@)[b] by {
                if b == before.len() {
                    assert(before.contains(before[a]));
                }
            }
        }
    }

    /// Takes in one line of the description.
    fn add_line(&mut self, raw: &str)
        requires
            old(self).wf(),
        ensures
            final(self).wf(),
            final(self)@ == match declared_name(raw@) {
                Some(n) => old(self)@.insert(n),
                None => old(self)@,
            },
    {
        let line = str_trim(raw);
        let n = line.unicode_len();
        if n < 1 || line.get_char(0) != '[' || line.get_char(n - 1) != ']' {
            return;
        }
        proof {
            reveal_strlit("capabilities.");
            assert(line@.last() == line@[n - 1]);
        }
        if n < 2 {
            return;
        }
        let inside = line.substring_char(1, n - 1);
        if !str_starts_with(inside, "capabilities.") {
            return;
        }
        let m = inside.unicode_len();
        let rest = inside.substring_char(13, m);
        if rest.unicode_len() == 0 {
            return;
        }
        self.add(rest);
    }

    /// The registry that description `text` gives.
    pub fn load(text: &str) -> (r: Self)
        ensures
            r.wf(),
            r@ == names_of_text(text@),
    {
        let n = text.unicode_len();
        let mut reg = CapabilityRegistry { names: Vec::new() };
        proof {
            assert(reg@ =~= Set::<Seq<char>>::empty());
        }
        let mut from: usize = 0;
        let ghost lines = split_from(text@, '\n', 0);
        let ghost mut done: Seq<Seq<char>> = Seq::empty();
        let mut finished = false;
        while !finished
            invariant
                n == text@.len(),
                lines == split_from(text@, '\n', 0),
                reg.wf(),
                reg@ == names_of_lines(done),
                !finished ==> from <= n,
                !finished ==> done + split_from(text@, '\n', from as int) == lines,
                finished ==> done == lines,
            decreases n + 1 - from, if finished { 0int } else { 1int },
        {
            proof {
                lemma_find_char_from(text@, '\n', from as int);
            }
            let i = str_find_char_from(text, '\n', from);
            let raw = text.substring_char(from, i);
            let ghost d0 = done;
            reg.add_line(raw);
            proof {
                done = done.push(raw@);
                assert(done.drop_last() =~= d0);
            }
            if i >= n {
                finished = true;
                proof {
                    assert(split_from(text@, '\n', from as int) == seq![text@.subrange(from as int, n as int)]);
                    assert(done =~= lines);
                }
            } else {
                proof {
                    assert(split_from(text@, '\n', from as int) == seq![text@.subrange(from as int, i as int)]
                        + split_from(text@, '\n', i + 1));
                    assert(d0 + split_from(text@, '\n', from as int) =~= done + split_from(
                        text@,
                        '\n',
                        i + 1,
                    ));
                }
                from = i + 1;
            }
        }
        reg
    }
}

} // verus!
