//! The allow list: for each service and each app, the capabilities it may
//! be given beyond the ones that are always granted.
//!
//! Its text has one rule per line, `service:<id>=cap1,cap2,...` or
//! `app:<id>=cap1,cap2,...`; blank lines and lines starting with `#` are
//! skipped, white space around each part is ignored, and a later rule for
//! the same subject replaces an earlier one.

use vstd::prelude::*;
use vstd::string::StrSliceExecFns;

use super::protocol::SubjectType;
use crate::text::{
    find_char_from, lemma_find_char_from, split_from, str_eq, str_find_char_from, str_starts_with,
    str_trim, trimmed,
};

verus! {

/// What one line of the allow list says.
pub struct RuleView {
    pub is_service: bool,
    pub id: Seq<char>,
    pub caps: Set<Seq<char>>,
}

/// The capability names in pieces `pieces`: each piece without its
/// surrounding white space, empty ones left out.
pub open spec fn caps_of_pieces(pieces: Seq<Seq<char>>) -> Set<Seq<char>>
    decreases pieces.len(),
{
    if pieces.len() == 0 {
        Set::empty()
    } else {
        let rest = caps_of_pieces(pieces.drop_last());
        let c = trimmed(pieces.last());
        if c.len() > 0 {
            rest.insert(c)
        } else {
            rest
        }
    }
}

/// The capability names in a comma-separated list.
pub open spec fn caps_of(rhs: Seq<char>) -> Set<Seq<char>> {
    caps_of_pieces(split_from(rhs, ',', 0))
}

/// The rule on line `raw`, if it holds one.
pub open spec fn parse_rule(raw: Seq<char>) -> Option<RuleView> {
    let line = trimmed(raw);
    let e = find_char_from(line, '=', 0);
    if line.len() == 0 || line[0] == '#' || e >= line.len() {
        None
    } else {
        let lhs = trimmed(line.subrange(0, e));
        let rhs = trimmed(line.subrange(e + 1, line.len() as int));
        if "service:"@.is_prefix_of(lhs) {
            let id = trimmed(lhs.subrange("service:"@.len() as int, lhs.len() as int));
            if id.len() == 0 {
                None
            } else {
                Some(RuleView { is_service: true, id, caps: caps_of(rhs) })
            }
        } else if "app:"@.is_prefix_of(lhs) {
            let id = trimmed(lhs.subrange("app:"@.len() as int, lhs.len() as int));
            if id.len() == 0 {
                None
            } else {
                Some(RuleView { is_service: false, id, caps: caps_of(rhs) })
            }
        } else {
            None
        }
    }
}

/// What the allow list holds: the rules for services and for apps.
pub struct DbView {
    pub services: Map<Seq<char>, Set<Seq<char>>>,
    pub apps: Map<Seq<char>, Set<Seq<char>>>,
}

/// `db` after line `raw`.
pub open spec fn apply_rule(db: DbView, raw: Seq<char>) -> DbView {
    match parse_rule(raw) {
        None => db,
        Some(rule) => if rule.is_service {
            DbView { services: db.services.insert(rule.id, rule.caps), ..db }
        } else {
            DbView { apps: db.apps.insert(rule.id, rule.caps), ..db }
        },
    }
}

/// The allow list that `lines` give, one after another.
pub open spec fn db_of_lines(lines: Seq<Seq<char>>) -> DbView
    decreases lines.len(),
{
    if lines.len() == 0 {
        DbView { services: Map::empty(), apps: Map::empty() }
    } else {
        apply_rule(db_of_lines(lines.drop_last()), lines.last())
    }
}

/// The allow list that text `text` gives.
pub open spec fn db_of_text(text: Seq<char>) -> DbView {
    db_of_lines(split_from(text, '\n', 0))
}

/// A rule line replaces whatever earlier lines said for the same subject:
/// after it, the subject may have exactly the capabilities it lists.
pub proof fn law_later_rule_replaces_earlier(lines: Seq<Seq<char>>, line: Seq<char>)
    requires
        parse_rule(line) is Some,
    ensures
        ({
            let rule = parse_rule(line)->Some_0;
            let db = db_of_lines(lines.push(line));
            &&& rule.is_service ==> db.services.contains_key(rule.id) && db.services[rule.id] == rule.caps
            &&& !rule.is_service ==> db.apps.contains_key(rule.id) && db.apps[rule.id] == rule.caps
        }),
{
    assert(lines.push(line).drop_last() =~= lines);
}

struct Rule {
    id: String,
    caps: Vec<String>,
}

spec fn names(v: Seq<String>) -> Seq<Seq<char>> {
    v.map_values(|s: String| s@)
}

spec fn rule_ids(rules: Seq<Rule>) -> Seq<Seq<char>> {
    rules.map_values(|r: Rule| r.id@)
}

spec fn rule_index(rules: Seq<Rule>, id: Seq<char>) -> int {
    choose|i: int| 0 <= i < rules.len() && #[trigger] rules[i].id@ == id
}

spec fn rules_map(rules: Seq<Rule>) -> Map<Seq<char>, Set<Seq<char>>> {
    Map::new(
        |id: Seq<char>| rule_ids(rules).contains(id),
        |id: Seq<char>| names(rules[rule_index(rules, id)].caps@).to_set(),
    )
}

/// The allow list.
pub struct AllowDb {
    services: Vec<Rule>,
    apps: Vec<Rule>,
}

impl View for AllowDb {
    type V = DbView;

    closed spec fn view(&self) -> DbView {
        DbView { services: rules_map(self.services@), apps: rules_map(self.apps@) }
    }
}

proof fn lemma_rule_index(rules: Seq<Rule>, i: int, k: Seq<char>)
    requires
        rule_ids(rules).no_duplicates(),
        0 <= i < rules.len(),
        rules[i].id@ == k,
    ensures
        rule_index(rules, k) == i,
{
    let j = rule_index(rules, k);
    assert(rule_ids(rules)[i] == k);
    assert(rule_ids(rules)[j] == k);
}

proof fn lemma_rules_update(rules: Seq<Rule>, i: int, r: Rule)
    requires
        rule_ids(rules).no_duplicates(),
        0 <= i < rules.len(),
        rules[i].id@ == r.id@,
    ensures
        rule_ids(rules.update(i, r)).no_duplicates(),
        rules_map(rules.update(i, r)) == rules_map(rules).insert(r.id@, names(r.caps@).to_set()),
{
    let new = rules.update(i, r);
    assert(rule_ids(new) =~= rule_ids(rules));
    assert(rule_ids(rules)[i] == r.id@);
    let m = rules_map(rules).insert(r.id@, names(r.caps@).to_set());
    assert(rules_map(new).dom() =~= m.dom());
    assert forall|k: Seq<char>| #[trigger] rules_map(new).dom().contains(k) implies rules_map(new)[k] == m[k] by {
        let j = choose|j: int| 0 <= j < rule_ids(new).len() && rule_ids(new)[j] == k;
        assert(new[j].id@ == k);
        lemma_rule_index(new, j, k);
        if k != r.id@ {
            assert(j != i);
            assert(rules[j].id@ == k);
            assert(rule_ids(rules)[j] == k);
            assert(rules_map(rules).dom().contains(k));
            lemma_rule_index(rules, j, k);
            assert(rules_map(new)[k] == names(new[j].caps@).to_set());
            assert(rules_map(rules)[k] == names(rules[j].caps@).to_set());
        } else {
            assert(rule_ids(new)[i] == k);
            assert(j == i);
        }
    }
    assert(rules_map(new) =~= m);
}

proof fn lemma_rules_push(rules: Seq<Rule>, r: Rule)
    requires
        rule_ids(rules).no_duplicates(),
        forall|k: int| 0 <= k < rules.len() ==> #[trigger] rules[k].id@ != r.id@,
    ensures
        rule_ids(rules.push(r)).no_duplicates(),
        rules_map(rules.push(r)) == rules_map(rules).insert(r.id@, names(r.caps@).to_set()),
{
    let new = rules.push(r);
    assert(rule_ids(new) =~= rule_ids(rules).push(r.id@));
    let m = rules_map(rules).insert(r.id@, names(r.caps@).to_set());
    assert forall|k: Seq<char>| rule_ids(new).contains(k) <==> (rule_ids(rules).contains(k) || k == r.id@) by {
        if rule_ids(rules).contains(k) {
            let j = choose|j: int| 0 <= j < rule_ids(rules).len() && rule_ids(rules)[j] == k;
            assert(rule_ids(new)[j] == k);
        }
        if k == r.id@ {
            assert(rule_ids(new)[rules.len() as int] == k);
        }
        if rule_ids(new).contains(k) {
            let j = choose|j: int| 0 <= j < rule_ids(new).len() && rule_ids(new)[j] == k;
            if j < rules.len() {
                assert(rule_ids(rules)[j] == k);
            }
        }
    }
    assert forall|a: int, b: int| 0 <= a < b < rule_ids(new).len() implies rule_ids(new)[a] != rule_ids(new)[b] by {
        if b == rules.len() {
            assert(rules[a].id@ != r.id@);
        } else {
            assert(rule_ids(rules)[a] != rule_ids(rules)[b]);
        }
    }
    assert(rules_map(new).dom() =~= m.dom());
    assert forall|k: Seq<char>| #[trigger] rules_map(new).dom().contains(k) implies rules_map(new)[k] == m[k] by {
        let j = choose|j: int| 0 <= j < rule_ids(new).len() && rule_ids(new)[j] == k;
        assert(new[j].id@ == k);
        lemma_rule_index(new, j, k);
        if k != r.id@ {
            assert(j < rules.len());
            assert(rules[j].id@ == k);
            assert(rule_ids(rules)[j] == k);
            assert(rules_map(rules).dom().contains(k));
            lemma_rule_index(rules, j, k);
            assert(rules_map(new)[k] == names(new[j].caps@).to_set());
            assert(rules_map(rules)[k] == names(rules[j].caps@).to_set());
        } else {
            if j < rules.len() {
                assert(rules[j].id@ != r.id@);
            }
        }
    }
    assert(rules_map(new) =~= m);
}

/// Puts `rule` in place of the one with its id, or adds it.
fn put_rule(rules: &mut Vec<Rule>, rule: Rule)
    requires
        rule_ids(old(rules)@).no_duplicates(),
    ensures
        rule_ids(final(rules)@).no_duplicates(),
        rules_map(final(rules)@) == rules_map(old(rules)@).insert(rule.id@, names(rule.caps@).to_set()),
{
    let mut i: usize = 0;
    while i < rules.len()
        invariant
            i <= rules@.len(),
            rules@ == old(rules)@,
            rule_ids(rules@).no_duplicates(),
            forall|k: int| 0 <= k < i ==> #[trigger] rules@[k].id@ != rule.id@,
        decreases rules@.len() - i,
    {
        if str_eq(rules[i].id.as_str(), rule.id.as_str()) {
            proof {
                lemma_rules_update(rules@, i as int, rule);
            }
            rules.set(i, rule);
            return;
        }
        i = i + 1;
    }
    proof {
        lemma_rules_push(rules@, rule);
    }
    rules.push(rule);
}

/// Whether `cap` is one of `caps`.
fn list_contains(caps: &Vec<String>, cap: &str) -> (r: bool)
    ensures
        r == names(caps@).contains(cap@),
{
    let mut i: usize = 0;
    while i < caps.len()
        invariant
            i <= caps@.len(),
            forall|k: int| 0 <= k < i ==> #[trigger] caps@[k]@ != cap@,
        decreases caps@.len() - i,
    {
        if str_eq(caps[i].as_str(), cap) {
            proof {
                assert(names(caps@)[i as int] == cap@);
            }
            return true;
        }
        i = i + 1;
    }
    proof {
        if names(caps@).contains(cap@) {
            let j = choose|j: int| 0 <= j < names(caps@).len() && names(caps@)[j] == cap@;
            assert(caps@[j]@ == cap@);
        }
    }
    false
}

/// The capability names in the comma-separated list `rhs`.
fn parse_caps(rhs: &str) -> (r: Vec<String>)
    ensures
        names(r@).to_set() == caps_of(rhs@),
{
    let n = rhs.unicode_len();
    let mut out: Vec<String> = Vec::new();
    let mut from: usize = 0;
    let ghost pieces = split_from(rhs@, ',', 0);
    let ghost mut done: Seq<Seq<char>> = Seq::empty();
    let mut finished = false;
    proof {
        assert(names(out@).to_set() =~= Set::<Seq<char>>::empty());
    }
    while !finished
        invariant
            n == rhs@.len(),
            pieces == split_from(rhs@, ',', 0),
            !finished ==> from <= n,
            !finished ==> done + split_from(rhs@, ',', from as int) == pieces,
            finished ==> done == pieces,
            names(out@).to_set() == caps_of_pieces(done),
        decreases n + 1 - from, if finished { 0int } else { 1int },
    {
        proof {
            lemma_find_char_from(rhs@, ',', from as int);
        }
        let i = str_find_char_from(rhs, ',', from);
        let piece = rhs.substring_char(from, i);
        let cap = str_trim(piece);
        let ghost before = out@;
        let ghost d0 = done;
        if cap.unicode_len() > 0 {
            out.push(cap.to_owned());
            proof {
                assert(names(out@) =~= names(before).push(cap@));
                names(before).lemma_push_to_set_commute(cap@);
            }
        }
        proof {
            let d1 = d0.push(piece@);
            assert(d1.drop_last() =~= d0);
            done = d1;
        }
        if i >= n {
            finished = true;
            proof {
                assert(split_from(rhs@, ',', from as int) == seq![rhs@.subrange(from as int, n as int)]);
                assert(done =~= pieces);
            }
        } else {
            proof {
                assert(split_from(rhs@, ',', from as int) == seq![rhs@.subrange(from as int, i as int)]
                    + split_from(rhs@, ',', i + 1));
                assert(d0 + split_from(rhs@, ',', from as int) =~= done + split_from(rhs@, ',', i + 1));
            }
            from = i + 1;
        }
    }
    out
}

impl AllowDb {
    pub closed spec fn wf(&self) -> bool {
        &&& rule_ids(self.services@).no_duplicates()
        &&& rule_ids(self.apps@).no_duplicates()
    }

    /// The empty allow list.
    pub fn empty() -> (r: Self)
        ensures
            r.wf(),
            r@ == (DbView { services: Map::empty(), apps: Map::empty() }),
    {
        let r = AllowDb { services: Vec::new(), apps: Vec::new() };
        proof {
            assert(r@.services =~= Map::<Seq<char>, Set<Seq<char>>>::empty());
            assert(r@.apps =~= Map::<Seq<char>, Set<Seq<char>>>::empty());
        }
        r
    }

    /// Takes in one line of allow-list text.
    fn apply_line(&mut self, raw: &str)
        requires
            old(self).wf(),
        ensures
            final(self).wf(),
            final(self)@ == apply_rule(old(self)@, raw@),
    {
        let line = str_trim(raw);
        let n = line.unicode_len();
        if n == 0 || line.get_char(0) == '#' {
            return;
        }
        proof {
            lemma_find_char_from(line@, '=', 0);
        }
        let e = str_find_char_from(line, '=', 0);
        if e >= n {
            return;
        }
        let lhs = str_trim(line.substring_char(0, e));
        let rhs = str_trim(line.substring_char(e + 1, n));
        let lhs_len = lhs.unicode_len();
        proof {
            reveal_strlit("service:");
            reveal_strlit("app:");
        }
        let is_service;
        let id;
        if str_starts_with(lhs, "service:") {
            is_service = true;
            id = str_trim(lhs.substring_char(8, lhs_len));
        } else if str_starts_with(lhs, "app:") {
            is_service = false;
            id = str_trim(lhs.substring_char(4, lhs_len));
        } else {
            return;
        }
        if id.unicode_len() == 0 {
            return;
        }
        let caps = parse_caps(rhs);
        let rule = Rule { id: id.to_owned(), caps };
        if is_service {
            put_rule(&mut self.services, rule);
        } else {
            put_rule(&mut self.apps, rule);
        }
    }

    /// The allow list that `text` gives.
    pub fn parse(text: &str) -> (r: Self)
        ensures
            r.wf(),
            r@ == db_of_text(text@),
    {
        let n = text.unicode_len();
        let mut db = AllowDb::empty();
        let mut from: usize = 0;
        let ghost lines = split_from(text@, '\n', 0);
        let ghost mut done: Seq<Seq<char>> = Seq::empty();
        let mut finished = false;
        while !finished
            invariant
                n == text@.len(),
                lines == split_from(text@, '\n', 0),
                db.wf(),
                db@ == db_of_lines(done),
                !finished ==> from <= n,
                !finished ==> done + split_from(text@, '\n', from as int) == lines,
                finished ==> done == lines,
            decreases n + 1 - from, if finished { 0int } else { 1int },
        {
            proof {
                lemma_find_char_from(text@, '\n', from as int);
            }
            let i = str_find_char_from(text, '\n', from);
            let raw = text.substring_char(from, i);
            let ghost d0 = done;
            db.apply_line(raw);
            proof {
                done = done.push(raw@);
                assert(done.drop_last() =~= d0);
            }
            if i >= n {
                finished = true;
                proof {
                    assert(split_from(text@, '\n', from as int) == seq![text@.subrange(from as int, n as int)]);
                    assert(done =~= lines);
                }
            } else {
                proof {
                    assert(split_from(text@, '\n', from as int) == seq![text@.subrange(from as int, i as int)]
                        + split_from(text@, '\n', i + 1));
                    assert(d0 + split_from(text@, '\n', from as int) =~= done + split_from(
                        text@,
                        '\n',
                        i + 1,
                    ));
                }
                from = i + 1;
            }
        }
        db
    }

    /// Number of services with a rule.
    pub fn services_len(&self) -> (r: usize)
        requires
            self.wf(),
        ensures
            r == self@.services.dom().len(),
    {
        proof {
            rule_ids(self.services@).unique_seq_to_set();
            assert(self@.services.dom() =~= rule_ids(self.services@).to_set());
        }
        self.services.len()
    }

    /// Number of apps with a rule.
    pub fn apps_len(&self) -> (r: usize)
        requires
            self.wf(),
        ensures
            r == self@.apps.dom().len(),
    {
        proof {
            rule_ids(self.apps@).unique_seq_to_set();
            assert(self@.apps.dom() =~= rule_ids(self.apps@).to_set());
        }
        self.apps.len()
    }

    /// Whether the rule for `subject_id` lists `cap`.
    pub fn allows(&self, subject_type: SubjectType, subject_id: &str, cap: &str) -> (r: bool)
        requires
            self.wf(),
        ensures
            r == db_allows(self@, subject_type, subject_id@, cap@),
    {
        let rules = match subject_type {
            SubjectType::Service => &self.services,
            SubjectType::App => &self.apps,
        };
        let mut i: usize = 0;
        while i < rules.len()
            invariant
                i <= rules@.len(),
                rules@ == match subject_type {
                    SubjectType::Service => self.services@,
                    SubjectType::App => self.apps@,
                },
                rule_ids(rules@).no_duplicates(),
                forall|k: int| 0 <= k < i ==> #[trigger] rules@[k].id@ != subject_id@,
            decreases rules@.len() - i,
        {
            if str_eq(rules[i].id.as_str(), subject_id) {
                proof {
                    assert(rule_ids(rules@)[i as int] == subject_id@);
                    let j = choose|j: int| 0 <= j < rules@.len() && #[trigger] rules@[j].id@ == subject_id@;
                    assert(rules@[j].id@ == subject_id@);
                    assert(rules@[i as int].id@ == subject_id@);
                }
                let r = list_contains(&rules[i].caps, cap);
                proof {
                    let j = choose|j: int| 0 <= j < rules@.len() && #[trigger] rules@[j].id@ == subject_id@;
                    assert(rule_ids(rules@)[j] == subject_id@);
                    assert(j == i);
                }
                return r;
            }
            i = i + 1;
        }
        proof {
            if rule_ids(rules@).contains(subject_id@) {
                let j = choose|j: int| 0 <= j < rule_ids(rules@).len() && rule_ids(rules@)[j] == subject_id@;
                assert(rules@[j].id@ == subject_id@);
            }
        }
        false
    }
}

/// The rule for `id` of kind `t` lists `cap`.
pub open spec fn db_allows(db: DbView, t: SubjectType, id: Seq<char>, cap: Seq<char>) -> bool {
    let m = match t {
        SubjectType::Service => db.services,
        SubjectType::App => db.apps,
    };
    m.contains_key(id) && m[id].contains(cap)
}

} // verus!
