use vstd::prelude::*;
use crate::db::RuleStore;
use crate::json::{encode_string_list, json_list_of_text, json_text_of_list, tags_of_json};
use crate::query::{db_view, get_view, not_found_message, search_seq, search_text, DbRule};
use crate::session::{duration_nanos, now_text, seconds_text, time_since_epoch};
use crate::split::{hex_fixed, hex_fixed_chars};
use crate::status::{active_string, active_text, cli_status, deprecated_text, is_status, normalize_status};
use crate::store::{
    has_rule, ins_rule, lemma_rule_index, rule_index, RuleRow, StoreView, StoredRule,
};
use crate::tags::{cli_tags, split_tags};
use crate::text::{chars_of, is_ws, lemma_trim_noop, string_of, texts_of, trim, trim_chars, trim_seq};

verus! {

// ---------------------------------------------------------------------------
// Rule ids
// ---------------------------------------------------------------------------

/// The id tried for a clock reading in nanoseconds and an attempt number:
/// `rule-` and eight lower-case hexadecimal digits of the low 32 bits of
/// their sum.
pub open spec fn candidate_id(nanos: u128, index: u32) -> Seq<char> {
    "rule-"@ + hex_fixed(((nanos as nat) + (index as nat)) % 0x1_0000_0000, 8)
}

pub fn rule_id_candidate(nanos: u128, index: u32) -> (r: String)
    ensures
        r@ == candidate_id(nanos, index),
{
    let low: u64 = (nanos % 0x1_0000_0000) as u64;
    let v: u64 = (low + index as u64) % 0x1_0000_0000;
    assert(v as int == ((nanos as int) + (index as int)) % 0x1_0000_0000) by (nonlinear_arith)
        requires
            low as int == (nanos as int) % 0x1_0000_0000,
            v as int == (low as int + index as int) % 0x1_0000_0000,
    {
    }
    let digits = hex_fixed_chars(v, 8);
    let mut s = "rule-".to_string();
    let tail = string_of(&digits);
    s.append(tail.as_str());
    s
}

pub proof fn lemma_hex_fixed_len(v: nat, w: nat)
    ensures
        hex_fixed(v, w).len() == w,
        forall|k: int| 0 <= k < w ==> !is_ws(#[trigger] hex_fixed(v, w)[k]),
    decreases w,
{
    if w > 0 {
        lemma_hex_fixed_len(v / 16, (w - 1) as nat);
        let p = hex_fixed(v / 16, (w - 1) as nat);
        assert forall|k: int| 0 <= k < w implies !is_ws(#[trigger] hex_fixed(v, w)[k]) by {
            if k < w - 1 {
                assert(hex_fixed(v, w)[k] == p[k]);
            }
        }
    }
}

/// A candidate id has no whitespace at either end.
pub proof fn lemma_candidate_trimmed(nanos: u128, index: u32)
    ensures
        trim_seq(candidate_id(nanos, index)) == candidate_id(nanos, index),
        candidate_id(nanos, index).len() == 13,
{
    reveal_strlit("rule-");
    let h = hex_fixed(((nanos as nat) + (index as nat)) % 0x1_0000_0000, 8);
    lemma_hex_fixed_len(((nanos as nat) + (index as nat)) % 0x1_0000_0000, 8);
    let c = candidate_id(nanos, index);
    assert(c[c.len() - 1] == h[7]);
    lemma_trim_noop(c);
}

/// The first free id among the candidates for the clock readings `ns`
/// from attempt `i` on (attempt `j` uses reading `ns[j]`), if any is free.
pub open spec fn id_search(rows: Seq<RuleRow>, ns: Seq<u128>, i: int) -> Option<Seq<char>>
    decreases ns.len() - i,
{
    if i < 0 || i >= ns.len() {
        None
    } else if !has_rule(rows, candidate_id(ns[i], i as u32)) {
        Some(candidate_id(ns[i], i as u32))
    } else {
        id_search(rows, ns, i + 1)
    }
}

/// No candidate id of any attempt and reading is taken.
pub open spec fn no_candidate_taken(rows: Seq<RuleRow>) -> bool {
    forall|n: u128, i: u32| i < 1000 ==> !has_rule(rows, #[trigger] candidate_id(n, i))
}

/// The thousand readings `ns` gave only taken candidates.
pub open spec fn ids_exhausted(rows: Seq<RuleRow>, ns: Seq<u128>) -> bool {
    &&& ns.len() == 1000
    &&& forall|i: int| 0 <= i < 1000 ==> has_rule(rows, #[trigger] candidate_id(ns[i], i as u32))
}

proof fn lemma_id_search_found(rows: Seq<RuleRow>, ns: Seq<u128>, i: int, k: int)
    requires
        0 <= i <= k < ns.len(),
        forall|j: int| i <= j < k ==> has_rule(rows, #[trigger] candidate_id(ns[j], j as u32)),
        !has_rule(rows, candidate_id(ns[k], k as u32)),
    ensures
        id_search(rows, ns, i) == Some(candidate_id(ns[k], k as u32)),
    decreases k - i,
{
    if i < k {
        assert(has_rule(rows, candidate_id(ns[i], i as u32)));
        lemma_id_search_found(rows, ns, i + 1, k);
    }
}

proof fn lemma_id_search_none(rows: Seq<RuleRow>, ns: Seq<u128>, i: int)
    requires
        0 <= i <= ns.len(),
        forall|j: int| i <= j < ns.len() ==> has_rule(rows, #[trigger] candidate_id(ns[j], j as u32)),
    ensures
        id_search(rows, ns, i) is None,
    decreases ns.len() - i,
{
    if i < ns.len() {
        assert(has_rule(rows, candidate_id(ns[i], i as u32)));
        lemma_id_search_none(rows, ns, i + 1);
    }
}

/// A found id is a free candidate.
pub proof fn lemma_id_search_free(rows: Seq<RuleRow>, ns: Seq<u128>, i: int)
    requires
        0 <= i,
        ns.len() <= 1000,
    ensures
        id_search(rows, ns, i) matches Some(id) ==> !has_rule(rows, id) && exists|n: u128, k: u32| k < 1000 && id == candidate_id(n, k),
    decreases ns.len() - i,
{
    if i < ns.len() {
        if has_rule(rows, candidate_id(ns[i], i as u32)) {
            lemma_id_search_free(rows, ns, i + 1);
        } else {
            assert(candidate_id(ns[i], i as u32) == candidate_id(ns[i], i as u32));
        }
    }
}

/// Readings padded to a thousand.
pub open spec fn padded(ns: Seq<u128>) -> Seq<u128> {
    ns + Seq::new((1000 - ns.len()) as nat, |j: int| 0u128)
}

impl RuleStore {
    /// The first free id among the candidates for the given clock readings,
    /// attempt `j` using reading `readings[j]`; none when all are taken.
    pub fn first_free_candidate(&self, readings: &Vec<u128>) -> (r: Option<String>)
        requires
            self.wf(),
            readings.len() <= 1000,
        ensures
            match r {
                Some(id) => id_search(self@.rules, readings@, 0) == Some(id@),
                None => id_search(self@.rules, readings@, 0) is None,
            },
    {
        let mut index: usize = 0;
        while index < readings.len()
            invariant
                index <= readings.len() <= 1000,
                forall|j: int| 0 <= j < index ==> has_rule(self@.rules, #[trigger] candidate_id(readings@[j], j as u32)),
            decreases readings.len() - index,
        {
            let id = rule_id_candidate(readings[index], index as u32);
            proof {
                lemma_rule_index(self@.rules, id@);
            }
            if self.find_rule(id.as_str()).is_none() {
                proof {
                    lemma_id_search_found(self@.rules, readings@, 0, index as int);
                }
                return Some(id);
            }
            index += 1;
        }
        proof {
            lemma_id_search_none(self@.rules, readings@, 0);
        }
        None
    }

    /// A rule id that no rule has: up to a thousand attempts, each from a
    /// fresh reading of the clock in nanoseconds plus the attempt number.
    /// The answer is the first free candidate of the readings taken; it
    /// fails only when all thousand were taken.
    pub fn generate_rule_id(&self) -> (r: Result<String, String>)
        requires
            self.wf(),
        ensures
            match r {
                Ok(id) => !has_rule(self@.rules, id@) && exists|n: u128, i: u32|
                    i < 1000 && id@ == candidate_id(n, i),
                Err(e) => e@ == "failed to generate rule id"@,
            },
            exists|ns: Seq<u128>| ns.len() == 1000 && match r {
                Ok(id) => id_search(self@.rules, ns, 0) == Some(id@),
                Err(e) => id_search(self@.rules, ns, 0) is None,
            },
            r is Err ==> exists|ns: Seq<u128>| ids_exhausted(self@.rules, ns),
            no_candidate_taken(self@.rules) ==> r is Ok,
    {
        let ghost mut ns: Seq<u128> = Seq::empty();
        let mut index: u32 = 0;
        while index < 1000
            invariant
                index <= 1000,
                ns.len() == index,
                forall|j: int| 0 <= j < index ==> has_rule(self@.rules, #[trigger] candidate_id(ns[j], j as u32)),
            decreases 1000 - index,
        {
            let nanos: u128 = match time_since_epoch() {
                Some(d) => duration_nanos(&d),
                None => 0,
            };
            let id = rule_id_candidate(nanos, index);
            proof {
                lemma_rule_index(self@.rules, id@);
            }
            if self.find_rule(id.as_str()).is_none() {
                proof {
                    let full = padded(ns.push(nanos));
                    assert forall|j: int| 0 <= j < index implies has_rule(self@.rules, #[trigger] candidate_id(full[j], j as u32)) by {
                        assert(full[j] == ns[j]);
                    }
                    assert(full[index as int] == nanos);
                    lemma_id_search_found(self@.rules, full, 0, index as int);
                    assert(full.len() == 1000);
                }
                return Ok(id);
            }
            proof {
                let n2 = ns.push(nanos);
                assert forall|j: int| 0 <= j < index + 1 implies has_rule(self@.rules, #[trigger] candidate_id(n2[j], j as u32)) by {
                    if j < index {
                        assert(n2[j] == ns[j]);
                    }
                }
                ns = n2;
            }
            index += 1;
        }
        proof {
            lemma_id_search_none(self@.rules, ns, 0);
            assert(ids_exhausted(self@.rules, ns));
            if no_candidate_taken(self@.rules) {
                assert(!has_rule(self@.rules, candidate_id(ns[0], 0u32)));
            }
        }
        Err("failed to generate rule id".to_string())
    }
}

// ---------------------------------------------------------------------------
// New rules
// ---------------------------------------------------------------------------

/// The row stored for a rule.
pub open spec fn make_row(
    id: Seq<char>,
    title: Seq<char>,
    content: Seq<char>,
    tags: Seq<Seq<char>>,
    status: Seq<char>,
    created_at: Seq<char>,
    updated_at: Seq<char>,
    picked_count: int,
    last_picked_at: Seq<char>,
) -> RuleRow {
    RuleRow {
        id,
        title,
        status,
        created_at,
        updated_at,
        picked_count,
        last_picked_at,
        content,
        tags_json: json_text_of_list(tags),
        search_text: search_seq(id, title, content, status, tags),
    }
}

/// The row of a rule added on the command line.
pub open spec fn added_row(id: Seq<char>, title: Seq<char>, content: Seq<char>, tags_raw: Seq<char>, ts: Seq<char>) -> RuleRow {
    make_row(id, trim_seq(title), trim_seq(content), cli_tags(tags_raw), active_text(), ts, ts, 0, Seq::empty())
}

pub fn build_row(
    id: &str,
    title: &str,
    content: &str,
    tags: &Vec<String>,
    status: &str,
    created_at: &str,
    updated_at: &str,
    picked_count: i64,
    last_picked_at: &str,
) -> (r: StoredRule)
    ensures
        r@ == make_row(id@, title@, content@, texts_of(tags@), status@, created_at@, updated_at@, picked_count as int, last_picked_at@),
        json_list_of_text(r@.tags_json) == Some(texts_of(tags@)),
{
    StoredRule {
        id: id.to_string(),
        title: title.to_string(),
        status: status.to_string(),
        created_at: created_at.to_string(),
        updated_at: updated_at.to_string(),
        picked_count,
        last_picked_at: last_picked_at.to_string(),
        content: content.to_string(),
        tags_json: encode_string_list(tags),
        search_text: search_text(id, title, content, status, tags),
    }
}

impl RuleStore {
    /// Stores a new rule row with a fresh id and reads it back.
    pub fn insert_rule_at(
        &mut self,
        id: &str,
        title: &str,
        content: &str,
        tags: &Vec<String>,
        status: &str,
        created_at: &str,
        updated_at: &str,
        picked_count: i64,
        last_picked_at: &str,
    ) -> (r: DbRule)
        requires
            old(self).wf(),
            !has_rule(old(self)@.rules, id@),
            is_status(status@),
            trim_seq(id@) == id@,
        ensures
            final(self).wf(),
            final(self)@ == (StoreView {
                rules: ins_rule(old(self)@.rules, make_row(id@, title@, content@, texts_of(tags@), status@, created_at@, updated_at@, picked_count as int, last_picked_at@)),
                sels: old(self)@.sels,
            }),
            r@ == db_view(make_row(id@, title@, content@, texts_of(tags@), status@, created_at@, updated_at@, picked_count as int, last_picked_at@), None),
            r@.tags == texts_of(tags@),
    {
        let row = build_row(id, title, content, tags, status, created_at, updated_at, picked_count, last_picked_at);
        let result = crate::query::row_to_rule(&row, None);
        self.insert_rule_row(row);
        result
    }

    /// Adds a project rule: title and content trimmed and both required,
    /// tags split from a comma-separated list, status `active`, created now
    /// with a fresh id; answers the stored rule.
    pub fn insert_rule(&mut self, title: &str, content: &str, tags_raw: &str) -> (r: Result<DbRule, String>)
        requires
            old(self).wf(),
        ensures
            final(self).wf(),
            (trim_seq(title@).len() == 0 || trim_seq(content@).len() == 0) ==> (r matches Err(e) && e@ == "title and content are required"@ && final(self)@ == old(self)@),
            match r {
                Ok(rule) => {
                    &&& !has_rule(old(self)@.rules, rule.id@)
                    &&& (exists|n: u128, i: u32| i < 1000 && rule.id@ == candidate_id(n, i))
                    &&& (exists|secs: Option<u64>| rule.created_at@ == seconds_text(secs))
                    &&& final(self)@ == (StoreView {
                        rules: ins_rule(old(self)@.rules, added_row(rule.id@, title@, content@, tags_raw@, rule.created_at@)),
                        sels: old(self)@.sels,
                    })
                    &&& rule@ == db_view(added_row(rule.id@, title@, content@, tags_raw@, rule.created_at@), None)
                    &&& rule@.tags == cli_tags(tags_raw@)
                },
                Err(e) => final(self)@ == old(self)@ && if trim_seq(title@).len() == 0 || trim_seq(content@).len() == 0 {
                    e@ == "title and content are required"@
                } else {
                    e@ == "failed to generate rule id"@ && exists|ns: Seq<u128>| ids_exhausted(old(self)@.rules, ns)
                },
            },
            trim_seq(title@).len() > 0 && trim_seq(content@).len() > 0 && no_candidate_taken(old(self)@.rules) ==> r is Ok,
    {
        let t = trim(title);
        let c = trim(content);
        let tc = chars_of(t.as_str());
        let cc = chars_of(c.as_str());
        if tc.len() == 0 || cc.len() == 0 {
            return Err("title and content are required".to_string());
        }
        let id = self.generate_rule_id()?;
        proof {
            let (n, i) = choose|n: u128, i: u32| i < 1000 && id@ == candidate_id(n, i);
            lemma_candidate_trimmed(n, i);
        }
        let tags = split_tags(tags_raw);
        let ts = now_text();
        let active = active_string();
        let rule = self.insert_rule_at(id.as_str(), t.as_str(), c.as_str(), &tags, active.as_str(), ts.as_str(), ts.as_str(), 0, "");
        assert(""@ =~= Seq::<char>::empty()) by {
            reveal_strlit("");
        }
        Ok(rule)
    }
}

// ---------------------------------------------------------------------------
// Changing and removing rules
// ---------------------------------------------------------------------------

/// A rule's row after an update: blank title or content keep the old ones,
/// absent tags keep the old ones, `status` is the status already decided;
/// the update time is `ts`.
pub open spec fn updated_row(
    row: RuleRow,
    title: Seq<char>,
    content: Seq<char>,
    tags: Option<Seq<Seq<char>>>,
    status: Seq<char>,
    ts: Seq<char>,
) -> RuleRow {
    let new_title = if trim_seq(title).len() == 0 { row.title } else { trim_seq(title) };
    let new_content = if trim_seq(content).len() == 0 { row.content } else { trim_seq(content) };
    let new_tags = match tags {
        Some(t) => t,
        None => tags_of_json(row.tags_json),
    };
    make_row(row.id, new_title, new_content, new_tags, status, row.created_at, ts, row.picked_count, row.last_picked_at)
}

/// What an update of rule `id` at time `ts` leaves and answers.
pub open spec fn update_result(
    v: StoreView,
    id: Seq<char>,
    title: Seq<char>,
    content: Seq<char>,
    tags: Option<Seq<Seq<char>>>,
    status: Seq<char>,
    ts: Seq<char>,
) -> Result<(StoreView, crate::query::DbRuleView), Seq<char>> {
    match rule_index(v.rules, trim_seq(id)) {
        None => Err(not_found_message(id)),
        Some(k) => {
            let row = v.rules[k];
            let st = if trim_seq(status).len() == 0 { Some(row.status) } else { cli_status(status) };
            match st {
                None => Err("status must be one of: active, deprecated"@),
                Some(s) => {
                    let nr = updated_row(row, title, content, tags, s, ts);
                    Ok((StoreView { rules: v.rules.update(k, nr), sels: v.sels }, db_view(nr, None)))
                },
            }
        },
    }
}

/// Whether a change from `v0` to `v1` answering `r` is what `expected` says.
pub open spec fn outcome_is(
    v0: StoreView,
    v1: StoreView,
    r: Result<DbRule, String>,
    expected: Result<(StoreView, crate::query::DbRuleView), Seq<char>>,
) -> bool {
    match expected {
        Ok((v, d)) => v1 == v && (r matches Ok(x) && x@ == d),
        Err(e) => v1 == v0 && (r matches Err(x) && x@ == e),
    }
}

/// What deprecating (or with `hard`, deleting) rule `id` at `ts` leaves and
/// answers.
pub open spec fn retire_result(v: StoreView, id: Seq<char>, hard: bool, ts: Seq<char>) -> Result<(StoreView, crate::query::DbRuleView), Seq<char>> {
    match get_view(v.rules, id) {
        None => Err(not_found_message(id)),
        Some(cur) => if hard {
            Ok((StoreView {
                rules: crate::store::drop_rule(v.rules, cur.id),
                sels: crate::store::keep_sels(v.sels, crate::store::not_of_rule(cur.id)),
            }, cur))
        } else {
            update_result(v, cur.id, Seq::empty(), Seq::empty(), None, deprecated_text(), ts)
        },
    }
}

/// The tags a rule has after an update of rule `id`: the given ones, or,
/// with none given, the ones it had.
pub open spec fn tags_after_update(v: StoreView, id: Seq<char>, tags: Option<Seq<Seq<char>>>) -> Seq<Seq<char>> {
    match tags {
        Some(t) => t,
        None => match get_view(v.rules, id) {
            Some(c) => c.tags,
            None => Seq::empty(),
        },
    }
}

impl RuleStore {
    /// Updates rule `id` (trimmed) at time `ts`: blank title or content keep
    /// the old ones, `None` tags keep the old ones, a blank status keeps the
    /// old one and any other must be `active` or `deprecated`.
    pub fn update_db_rule_at(
        &mut self,
        id: &str,
        title: &str,
        content: &str,
        tags: Option<Vec<String>>,
        status: &str,
        ts: &str,
    ) -> (r: Result<DbRule, String>)
        requires
            old(self).wf(),
        ensures
            final(self).wf(),
            outcome_is(old(self)@, final(self)@, r, update_result(old(self)@, id@, title@, content@,
                match tags { Some(t) => Some(texts_of(t@)), None => None }, status@, ts@)),
            r matches Ok(x) ==> x@.tags == tags_after_update(old(self)@, id@, match tags { Some(t) => Some(texts_of(t@)), None => None }),
    {
        let ghost tags_v = match &tags { Some(t) => Some(texts_of(t@)), None => None };
        let key = trim(id);
        proof {
            lemma_rule_index(self@.rules, key@);
        }
        let k = match self.find_rule(key.as_str()) {
            Some(k) => k,
            None => {
                let mut msg = "rule not found: ".to_string();
                msg.append(key.as_str());
                return Err(msg);
            },
        };
        let rows = self.rules();
        assert(crate::db::rule_rows(rows@)[k as int] == rows@[k as int]@);
        let current = crate::query::row_to_rule(&rows[k], None);
        let ghost row = self@.rules[k as int];
        let tt = trim(title);
        let new_title = if chars_of(tt.as_str()).len() == 0 { current.title.clone() } else { tt };
        let ct = trim(content);
        let new_content = if chars_of(ct.as_str()).len() == 0 { current.content.clone() } else { ct };
        let new_tags = match tags {
            Some(t) => t,
            None => crate::db::copy_strings(&current.tags),
        };
        let st = trim_chars(&chars_of(status));
        let new_status = if st.len() == 0 {
            current.status.clone()
        } else {
            normalize_status(status)?
        };
        let nr = build_row(current.id.as_str(), new_title.as_str(), new_content.as_str(), &new_tags, new_status.as_str(), current.created_at.as_str(), ts, current.picked_count, current.last_picked_at.as_str());
        let result = crate::query::row_to_rule(&nr, None);
        assert(nr@ == updated_row(row, title@, content@, tags_v, new_status@, ts@));
        self.replace_rule(k, nr);
        Ok(result)
    }

    /// Updates rule `id` (trimmed) now; see `update_db_rule_at`.
    pub fn update_db_rule(
        &mut self,
        id: &str,
        title: &str,
        content: &str,
        tags: Option<Vec<String>>,
        status: &str,
    ) -> (r: Result<DbRule, String>)
        requires
            old(self).wf(),
        ensures
            final(self).wf(),
            exists|secs: Option<u64>| outcome_is(old(self)@, final(self)@, r, update_result(old(self)@, id@, title@, content@,
                match tags { Some(t) => Some(texts_of(t@)), None => None }, status@, seconds_text(secs))),
            r matches Ok(x) ==> x@.tags == tags_after_update(old(self)@, id@, match tags { Some(t) => Some(texts_of(t@)), None => None }),
    {
        let ts = now_text();
        self.update_db_rule_at(id, title, content, tags, status, ts.as_str())
    }

    /// Deprecates rule `id` at `ts`, or with `hard` deletes it together with
    /// its selections; answers the rule as it was before a deletion, as it is
    /// after a deprecation.
    pub fn deprecate_or_delete_rule_at(&mut self, id: &str, hard: bool, ts: &str) -> (r: Result<DbRule, String>)
        requires
            old(self).wf(),
        ensures
            final(self).wf(),
            outcome_is(old(self)@, final(self)@, r, retire_result(old(self)@, id@, hard, ts@)),
            r matches Ok(x) ==> x@.tags == tags_after_update(old(self)@, id@, None),
    {
        let current = self.get_rule(id)?;
        if hard {
            self.remove_rule(current.id.as_str());
            Ok(current)
        } else {
            let dep = crate::status::deprecated_string();
            proof {
                lemma_rule_index(self@.rules, trim_seq(id@));
                crate::text::lemma_trim_idempotent(id@);
            }
            let r = self.update_db_rule_at(current.id.as_str(), "", "", None, dep.as_str(), ts);
            proof {
                reveal_strlit("");
            }
            r
        }
    }

    /// Deprecates rule `id` now, or with `hard` deletes it.
    pub fn deprecate_or_delete_rule(&mut self, id: &str, hard: bool) -> (r: Result<DbRule, String>)
        requires
            old(self).wf(),
        ensures
            final(self).wf(),
            exists|secs: Option<u64>| outcome_is(old(self)@, final(self)@, r, retire_result(old(self)@, id@, hard, seconds_text(secs))),
            r matches Ok(x) ==> x@.tags == tags_after_update(old(self)@, id@, None),
    {
        let ts = now_text();
        self.deprecate_or_delete_rule_at(id, hard, ts.as_str())
    }
}

} // verus!
