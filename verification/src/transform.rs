//! The streaming group-by of the transform stage: sorted rows are cut into
//! groups of one key, and each group is reshaped into rows of the
//! author/affiliation table.

use vstd::prelude::*;
use vstd::multiset::Multiset;
use crate::crossref::owned_text;
use crate::group::{
    after_row, after_rows, field_slot, lemma_after_rows_tidy, no_group, slot_of, AuthorGroup,
    FieldSlot, GroupModel, RowFacts,
};
use crate::index::{
    affiliation_pattern, author_affiliation_pattern, author_pattern, authorship_pattern,
    first_capture, institution_pattern, regex_accepts, IndexParseError, IndexPattern,
};
use crate::order::{ascending, lemma_le_antisymmetric, lemma_le_reflexive, text_le};
use crate::reshape::{
    in_order, index_limit, lemma_row_count, lemma_rows_have_the_key, lemma_rows_in_order,
    materialized, output_rows, rows_due, OutputRecord, OutputRow,
};
use crate::row::{input_rows, keys_of, InputRecord, InputRow};

verus! {

/// The compiled patterns of the three kinds of index in a path.
pub struct IndexPatterns {
    pub authorship: IndexPattern,
    pub affiliation: IndexPattern,
    pub institution: IndexPattern,
}

/// The regular expressions of the three kinds of index.
pub ghost struct PatternSources {
    pub authorship: Seq<char>,
    pub affiliation: Seq<char>,
    pub institution: Seq<char>,
}

/// Whether each of the three regular expressions compiles.
pub open spec fn all_accepted(sources: PatternSources) -> bool {
    regex_accepts(sources.authorship) && regex_accepts(sources.affiliation) && regex_accepts(
        sources.institution,
    )
}

/// The regular expressions for Crossref paths.
pub open spec fn crossref_sources() -> PatternSources {
    PatternSources {
        authorship: author_pattern(),
        affiliation: author_affiliation_pattern(),
        institution: institution_pattern(),
    }
}

/// The regular expressions for OpenAlex paths.
pub open spec fn openalex_sources() -> PatternSources {
    PatternSources {
        authorship: authorship_pattern(),
        affiliation: affiliation_pattern(),
        institution: institution_pattern(),
    }
}

impl IndexPatterns {
    /// The regular expressions that were compiled.
    pub open spec fn sources(&self) -> PatternSources {
        PatternSources {
            authorship: self.authorship.source(),
            affiliation: self.affiliation.source(),
            institution: self.institution.source(),
        }
    }

    /// The patterns for OpenAlex paths: `authorships[N]`, `affiliations[N]`
    /// and `institutions[N]`. `None` where one of them does not compile.
    pub fn openalex() -> (r: Option<IndexPatterns>)
        ensures
            r is Some == all_accepted(openalex_sources()),
            r matches Some(patterns) ==> patterns.sources() == openalex_sources(),
    {
        let authorship = match IndexPattern::new("authorships\\[(\\d+)\\]") {
            Some(p) => p,
            None => {
                return None;
            },
        };
        let affiliation = match IndexPattern::new("affiliations\\[(\\d+)\\]") {
            Some(p) => p,
            None => {
                return None;
            },
        };
        let institution = match IndexPattern::new("institutions\\[(\\d+)\\]") {
            Some(p) => p,
            None => {
                return None;
            },
        };
        Some(IndexPatterns { authorship, affiliation, institution })
    }

    /// The patterns for Crossref paths: `author[N]` and `affiliation[N]`.
    /// Crossref rows name no institutions. `None` where one of the patterns
    /// does not compile.
    pub fn crossref() -> (r: Option<IndexPatterns>)
        ensures
            r is Some == all_accepted(crossref_sources()),
            r matches Some(patterns) ==> patterns.sources() == crossref_sources(),
    {
        let authorship = match IndexPattern::new("author\\[(\\d+)\\]") {
            Some(p) => p,
            None => {
                return None;
            },
        };
        let affiliation = match IndexPattern::new("affiliation\\[(\\d+)\\]") {
            Some(p) => p,
            None => {
                return None;
            },
        };
        let institution = match IndexPattern::new("institutions\\[(\\d+)\\]") {
            Some(p) => p,
            None => {
                return None;
            },
        };
        Some(IndexPatterns { authorship, affiliation, institution })
    }
}

/// Whether the field of a row sets something of an affiliation.
pub open spec fn needs_affiliation(field_name: Seq<char>) -> bool {
    slot_of(field_name) is AffiliationString || slot_of(field_name) is InstitutionIds
}

/// Whether the field of a row sets something of an institution.
pub open spec fn needs_institution(field_name: Seq<char>) -> bool {
    slot_of(field_name) is InstitutionId || slot_of(field_name) is InstitutionRor
}

/// What a row says: its field and value, the author index in its path, and
/// the affiliation or institution index where its field asks for one.
pub open spec fn facts_of(row: InputRow, sources: PatternSources) -> RowFacts {
    let author = first_capture(sources.authorship, row.subfield_path);
    RowFacts {
        field_name: row.field_name,
        value: row.value,
        author,
        affiliation: if author is Some && needs_affiliation(row.field_name) {
            first_capture(sources.affiliation, row.subfield_path)
        } else {
            None
        },
        institution: if author is Some && needs_institution(row.field_name) {
            first_capture(sources.institution, row.subfield_path)
        } else {
            None
        },
    }
}

/// What each of `rows` says.
pub open spec fn all_facts(rows: Seq<InputRow>, sources: PatternSources) -> Seq<RowFacts> {
    Seq::new(rows.len(), |i: int| facts_of(rows[i], sources))
}

/// The rows of the table for the rows of one work, or the text of the first
/// bracketed index that is no number.
pub open spec fn reshaped(
    work_id: Seq<char>,
    doi: Option<Seq<char>>,
    rows: Seq<InputRow>,
    sources: PatternSources,
) -> Result<Seq<OutputRow>, Seq<char>> {
    match after_rows(no_group(), all_facts(rows, sources)) {
        Ok(group) => Ok(materialized(group, work_id, doi)),
        Err(text) => Err(text),
    }
}

/// Takes one row into the group of its work.
pub fn take_row(group: &mut AuthorGroup, record: &InputRecord, patterns: &IndexPatterns) -> (r: Result<
    (),
    IndexParseError,
>)
    ensures
        match r {
            Ok(()) => after_row(old(group)@, facts_of(record@, patterns.sources())) == Ok::<
                GroupModel,
                Seq<char>,
            >(final(group)@),
            Err(e) => after_row(old(group)@, facts_of(record@, patterns.sources())) == Err::<
                GroupModel,
                Seq<char>,
            >(e.text@),
        },
{
    let author = patterns.authorship.find(record.subfield_path.as_str());
    if author.is_none() {
        return group.apply_row(
            record.field_name.as_str(),
            record.value.as_str(),
            None,
            None,
            None,
        );
    }
    let slot = field_slot(record.field_name.as_str());
    let affiliation = match slot {
        FieldSlot::AffiliationString => patterns.affiliation.find(record.subfield_path.as_str()),
        FieldSlot::InstitutionIds => patterns.affiliation.find(record.subfield_path.as_str()),
        _ => None,
    };
    let institution = match slot {
        FieldSlot::InstitutionId => patterns.institution.find(record.subfield_path.as_str()),
        FieldSlot::InstitutionRor => patterns.institution.find(record.subfield_path.as_str()),
        _ => None,
    };
    group.apply_row(
        record.field_name.as_str(),
        record.value.as_str(),
        author,
        affiliation,
        institution,
    )
}

/// Reshapes the rows of one work into rows of the author/affiliation
/// table. A row without an author index in its path is passed over; a
/// bracketed index that is no number that fits ends the work with an error.
/// The rows come by author and, within an author, by affiliation: one for
/// each affiliation, one for an author without any, each with the key and
/// the DOI handed in.
pub fn process_work_group(
    work_id: &str,
    doi: &Option<String>,
    records: &Vec<InputRecord>,
    patterns: &IndexPatterns,
) -> (r: Result<Vec<OutputRecord>, IndexParseError>)
    ensures
        match r {
            Ok(out) => reshaped(
                work_id@,
                owned_text(*doi),
                input_rows(records@),
                patterns.sources(),
            ) == Ok::<Seq<OutputRow>, Seq<char>>(output_rows(out@)),
            Err(e) => reshaped(
                work_id@,
                owned_text(*doi),
                input_rows(records@),
                patterns.sources(),
            ) == Err::<Seq<OutputRow>, Seq<char>>(e.text@),
        },
        r matches Ok(out) ==> in_order(output_rows(out@)),
        r matches Ok(out) ==> out@.len() == rows_due(
            after_rows(no_group(), all_facts(input_rows(records@), patterns.sources()))->Ok_0,
            index_limit(),
        ),
        r matches Ok(out) ==> forall|i: int|
            0 <= i < out@.len() ==> (#[trigger] out@[i]).work_id@ == work_id@ && owned_text(
                out@[i].doi,
            ) == owned_text(*doi),
{
    let ghost facts = all_facts(input_rows(records@), patterns.sources());
    let mut group = AuthorGroup::new();
    let mut i: usize = 0;
    while i < records.len()
        invariant
            i <= records.len(),
            facts == all_facts(input_rows(records@), patterns.sources()),
            after_rows(no_group(), facts.take(i as int)) == Ok::<GroupModel, Seq<char>>(group@),
        decreases records.len() - i,
    {
        proof {
            assert(facts.take(i + 1).drop_last() =~= facts.take(i as int));
            assert(facts.take(i + 1).last() == facts_of(records@[i as int]@, patterns.sources()));
        }
        match take_row(&mut group, &records[i], patterns) {
            Ok(()) => {},
            Err(e) => {
                proof {
                    lemma_error_stays(no_group(), facts, i + 1);
                }
                return Err(e);
            },
        }
        i += 1;
    }
    assert(facts.take(records.len() as int) =~= facts);
    let out = group.materialize(work_id, doi);
    proof {
        lemma_after_rows_tidy(facts);
        lemma_rows_in_order(group@, work_id@, owned_text(*doi));
        lemma_row_count(group@, work_id@, owned_text(*doi));
        lemma_rows_have_the_key(group@, work_id@, owned_text(*doi));
        assert forall|i: int| 0 <= i < out@.len() implies (#[trigger] out@[i]).work_id@
            == work_id@ && owned_text(out@[i].doi) == owned_text(*doi) by {
            assert(output_rows(out@)[i] == out@[i]@);
        }
    }
    Ok(out)
}

proof fn lemma_error_stays(group: GroupModel, rows: Seq<RowFacts>, n: int)
    requires
        0 <= n <= rows.len(),
        after_rows(group, rows.take(n)) is Err,
    ensures
        after_rows(group, rows) == after_rows(group, rows.take(n)),
    decreases rows.len() - n,
{
    if n < rows.len() {
        assert(rows.take(n + 1).drop_last() =~= rows.take(n));
        lemma_error_stays(group, rows, n + 1);
    } else {
        assert(rows.take(n) =~= rows);
    }
}

/// The rows of one work, as the group-by hands them out.
#[derive(Debug)]
pub struct WorkGroup {
    pub work_id: String,
    /// The DOI of the last row of the group.
    pub doi: Option<String>,
    pub records: Vec<InputRecord>,
}

/// The state of the group-by: the key of the rows that are being collected,
/// and those rows.
#[derive(Debug)]
pub struct GroupBy {
    current_work_id: Option<String>,
    current_doi: Option<String>,
    records: Vec<InputRecord>,
}

impl GroupBy {
    /// The key of the rows that are being collected.
    pub closed spec fn key(&self) -> Option<Seq<char>> {
        owned_text(self.current_work_id)
    }

    /// The DOI of the row that came last.
    pub closed spec fn doi(&self) -> Option<Seq<char>> {
        owned_text(self.current_doi)
    }

    /// The rows that are being collected.
    pub closed spec fn held(&self) -> Seq<InputRecord> {
        self.records@
    }

    /// What holds of the state: rows are held only under a key, and all of
    /// them have that key.
    pub open spec fn consistent(&self) -> bool {
        &&& self.key() is None ==> self.held().len() == 0
        &&& self.key() is Some ==> self.held().len() > 0
        &&& forall|i: int|
            0 <= i < self.held().len() ==> Some((#[trigger] self.held()[i]).work_id@) == self.key()
    }

    /// The state before the first row.
    pub fn new() -> (state: GroupBy)
        ensures
            state.key() is None,
            state.held() == Seq::<InputRecord>::empty(),
            state.consistent(),
    {
        GroupBy { current_work_id: None, current_doi: None, records: Vec::new() }
    }

    /// Takes the next row. Where its key differs from that of the rows held,
    /// those are handed out as a group, and the row starts the next one.
    pub fn push(&mut self, record: InputRecord) -> (done: Option<WorkGroup>)
        requires
            old(self).consistent(),
        ensures
            final(self).consistent(),
            final(self).key() == Some(record.work_id@),
            final(self).doi() == owned_text(record.doi),
            match done {
                Some(group) => old(self).key() is Some && old(self).key() != Some(
                    record.work_id@,
                ) && Some(group.work_id@) == old(self).key() && owned_text(group.doi) == old(self).doi() && group.records@ == old(self).held() && final(self).held()
                    == seq![record],
                None => (old(self).key() is None || old(self).key() == Some(record.work_id@))
                    && final(self).held() == old(self).held().push(record),
            },
    {
        let same = match &self.current_work_id {
            Some(key) => *key == record.work_id,
            None => true,
        };
        let next_key = record.work_id.clone();
        let next_doi = match &record.doi {
            Some(d) => Some(d.clone()),
            None => None,
        };
        if same {
            self.current_work_id = Some(next_key);
            self.current_doi = next_doi;
            self.records.push(record);
            None
        } else {
            let mut key = Some(next_key);
            let mut doi = next_doi;
            let mut records: Vec<InputRecord> = Vec::new();
            records.push(record);
            std::mem::swap(&mut self.current_work_id, &mut key);
            std::mem::swap(&mut self.current_doi, &mut doi);
            std::mem::swap(&mut self.records, &mut records);
            match key {
                Some(work_id) => Some(WorkGroup { work_id, doi, records }),
                None => None,
            }
        }
    }

    /// Ends the input; hands out the rows still held as the last group.
    pub fn finish(self) -> (done: Option<WorkGroup>)
        requires
            self.consistent(),
        ensures
            match done {
                Some(group) => Some(group.work_id@) == self.key() && owned_text(group.doi)
                    == self.doi() && group.records@ == self.held() && group.records@.len() > 0,
                None => self.key() is None,
            },
    {
        match self.current_work_id {
            Some(work_id) => Some(
                WorkGroup { work_id, doi: self.current_doi, records: self.records },
            ),
            None => None,
        }
    }
}

/// Whether every row of `group` has the key of the group, and there is one.
pub open spec fn one_key(group: WorkGroup) -> bool {
    &&& group.records@.len() > 0
    &&& forall|i: int|
        0 <= i < group.records@.len() ==> (#[trigger] group.records@[i]).work_id@
            == group.work_id@
}

/// The rows of `groups`, one group after the other.
pub open spec fn group_rows(groups: Seq<WorkGroup>) -> Seq<InputRecord>
    decreases groups.len(),
{
    if groups.len() == 0 {
        Seq::empty()
    } else {
        group_rows(groups.drop_last()) + groups.last().records@
    }
}

/// Whether `groups` are the runs of equal keys of `records`, in order: the
/// groups together are the records, each group has one key, and groups that
/// follow each other have different keys.
pub open spec fn runs_of(groups: Seq<WorkGroup>, records: Seq<InputRecord>) -> bool {
    &&& group_rows(groups) == records
    &&& forall|g: int| 0 <= g < groups.len() ==> one_key(#[trigger] groups[g])
    &&& forall|g: int|
        0 <= g < groups.len() - 1 ==> (#[trigger] groups[g]).work_id@ != groups[g + 1].work_id@
}

/// Cuts rows into groups of equal keys that follow each other.
pub fn group_runs(records: Vec<InputRecord>) -> (groups: Vec<WorkGroup>)
    ensures
        runs_of(groups@, records@),
{
    let ghost all = records@;
    let mut state = GroupBy::new();
    let mut groups: Vec<WorkGroup> = Vec::new();
    assert(all.take(0) =~= group_rows(groups@) + state.held());
    for record in it: records
        invariant
            it.seq() == all,
            state.consistent(),
            group_rows(groups@) + state.held() == all.take(it.index() as int),
            forall|g: int| 0 <= g < groups@.len() ==> one_key(#[trigger] groups@[g]),
            forall|g: int|
                0 <= g < groups@.len() - 1 ==> (#[trigger] groups@[g]).work_id@ != groups@[g
                    + 1].work_id@,
            groups@.len() > 0 ==> state.key() is Some && Some(groups@.last().work_id@)
                != state.key(),
    {
        let ghost before = groups@;
        let ghost held = state.held();
        let ghost key = state.key();
        match state.push(record) {
            Some(group) => {
                groups.push(group);
                proof {
                    assert(groups@.drop_last() =~= before);
                    assert(all.take(it.index() + 1) =~= all.take(it.index() as int).push(record));
                    assert(group_rows(groups@) + state.held() =~= all.take(it.index() + 1));
                    assert forall|g: int| 0 <= g < groups@.len() implies one_key(
                        #[trigger] groups@[g],
                    ) by {
                        if g < before.len() {
                            assert(groups@[g] == before[g]);
                        }
                    }
                    assert forall|g: int| 0 <= g < groups@.len() - 1 implies (#[trigger] groups@[g]).work_id@
                        != groups@[g + 1].work_id@ by {
                        assert(groups@[g] == before[g]);
                        if g + 1 < before.len() {
                            assert(groups@[g + 1] == before[g + 1]);
                        }
                    }
                }
            },
            None => {
                proof {
                    assert(all.take(it.index() + 1) =~= all.take(it.index() as int).push(record));
                    assert(group_rows(groups@) + state.held() =~= all.take(it.index() + 1));
                }
            },
        }
    }
    let ghost before = groups@;
    let ghost held = state.held();
    match state.finish() {
        Some(group) => {
            groups.push(group);
            proof {
                assert(groups@.drop_last() =~= before);
                assert(all.take(all.len() as int) =~= all);
                assert forall|g: int| 0 <= g < groups@.len() implies one_key(
                    #[trigger] groups@[g],
                ) by {
                    if g < before.len() {
                        assert(groups@[g] == before[g]);
                    }
                }
                assert forall|g: int| 0 <= g < groups@.len() - 1 implies (#[trigger] groups@[g]).work_id@
                    != groups@[g + 1].work_id@ by {
                    assert(groups@[g] == before[g]);
                    if g + 1 < before.len() {
                        assert(groups@[g + 1] == before[g + 1]);
                    }
                }
            }
        },
        None => {
            proof {
                assert(all.take(all.len() as int) =~= all);
                assert(group_rows(groups@) + Seq::<InputRecord>::empty() =~= group_rows(groups@));
            }
        },
    }
    groups
}

/// The number of rows in the first `n` groups.
pub open spec fn rows_before(groups: Seq<WorkGroup>, n: int) -> int
    decreases n,
{
    if n <= 0 {
        0
    } else {
        rows_before(groups, n - 1) + groups[n - 1].records@.len()
    }
}

proof fn lemma_group_place(groups: Seq<WorkGroup>, g: int, k: int)
    requires
        0 <= g < groups.len(),
        0 <= k < groups[g].records@.len(),
    ensures
        0 <= rows_before(groups, g) + k < group_rows(groups).len(),
        group_rows(groups)[rows_before(groups, g) + k] == groups[g].records@[k],
        rows_before(groups, g) >= 0,
    decreases groups.len(),
{
    let front = groups.drop_last();
    lemma_rows_total(front);
    if g == groups.len() - 1 {
        lemma_rows_same(groups, front, g);
    } else {
        lemma_group_place(front, g, k);
        lemma_rows_same(groups, front, g);
    }
}

proof fn lemma_rows_same(groups: Seq<WorkGroup>, front: Seq<WorkGroup>, n: int)
    requires
        0 <= n <= front.len() <= groups.len(),
        forall|i: int| 0 <= i < front.len() ==> front[i] == groups[i],
    ensures
        rows_before(groups, n) == rows_before(front, n),
        rows_before(groups, n) >= 0,
    decreases n,
{
    if n > 0 {
        lemma_rows_same(groups, front, n - 1);
    }
}

proof fn lemma_rows_total(groups: Seq<WorkGroup>)
    ensures
        group_rows(groups).len() == rows_before(groups, groups.len() as int),
    decreases groups.len(),
{
    if groups.len() > 0 {
        let front = groups.drop_last();
        lemma_rows_total(front);
        lemma_rows_same(groups, front, front.len() as int);
    }
}

proof fn lemma_rows_grow(groups: Seq<WorkGroup>, g: int, h: int)
    requires
        0 <= g <= h <= groups.len(),
    ensures
        rows_before(groups, g) <= rows_before(groups, h),
    decreases h - g,
{
    if g < h {
        lemma_rows_grow(groups, g, h - 1);
    }
}

/// In rows whose keys never go down, every key has one group: no two groups
/// of the runs have the same key.
pub proof fn lemma_one_group_per_key(groups: Seq<WorkGroup>, records: Seq<InputRecord>)
    requires
        runs_of(groups, records),
        ascending(keys_of(records)),
    ensures
        forall|g: int, h: int|
            0 <= g < h < groups.len() ==> (#[trigger] groups[g]).work_id@ != (
            #[trigger] groups[h]).work_id@,
{
    assert forall|g: int, h: int| 0 <= g < h < groups.len() implies (#[trigger] groups[g]).work_id@
        != (#[trigger] groups[h]).work_id@ by {
        if groups[g].work_id@ == groups[h].work_id@ {
            lemma_keys_rise(groups, records, g, g + 1);
            if g + 1 < h {
                lemma_keys_rise(groups, records, g + 1, h);
            } else {
                lemma_le_reflexive(groups[h].work_id@);
            }
            lemma_le_antisymmetric(groups[g].work_id@, groups[g + 1].work_id@);
        }
    }
}

proof fn lemma_keys_rise(groups: Seq<WorkGroup>, records: Seq<InputRecord>, g: int, h: int)
    requires
        runs_of(groups, records),
        ascending(keys_of(records)),
        0 <= g < h < groups.len(),
    ensures
        text_le(groups[g].work_id@, groups[h].work_id@),
{
    assert(one_key(groups[g]));
    assert(one_key(groups[h]));
    lemma_group_place(groups, g, 0);
    lemma_group_place(groups, h, 0);
    lemma_rows_grow(groups, g, h);
    let a = rows_before(groups, g);
    let b = rows_before(groups, h);
    assert(keys_of(records)[a] == groups[g].records@[0].work_id@);
    assert(keys_of(records)[b] == groups[h].records@[0].work_id@);
}

proof fn lemma_count_in_groups(groups: Seq<WorkGroup>, n: int, g: int, record: InputRecord)
    requires
        0 <= n <= groups.len(),
        forall|h: int| 0 <= h < groups.len() ==> one_key(#[trigger] groups[h]),
        forall|h: int, k: int|
            0 <= h < k < groups.len() ==> (#[trigger] groups[h]).work_id@ != (
            #[trigger] groups[k]).work_id@,
        0 <= g < groups.len(),
        record.work_id@ == groups[g].work_id@,
    ensures
        group_rows(groups.take(n)).to_multiset().count(record) == if g < n {
            groups[g].records@.to_multiset().count(record)
        } else {
            0
        },
    decreases n,
{
    broadcast use vstd::multiset::group_multiset_axioms;

    if n == 0 {
        let none = group_rows(groups.take(0));
        assert(none.len() == 0);
        none.to_multiset_ensures();
        assert(none.to_multiset() =~= Multiset::empty());
    } else {
        let front = groups.take(n - 1);
        let last = groups[n - 1];
        lemma_count_in_groups(groups, n - 1, g, record);
        assert(groups.take(n).drop_last() =~= front);
        assert(groups.take(n).last() == last);
        vstd::seq_lib::lemma_multiset_commutative(group_rows(front), last.records@);
        if g != n - 1 {
            assert(one_key(last));
            if g < n - 1 {
                assert(groups[g].work_id@ != groups[n - 1].work_id@);
            } else {
                assert(groups[n - 1].work_id@ != groups[g].work_id@);
            }
            last.records@.to_multiset_ensures();
            if last.records@.contains(record) {
                let k = choose|k: int| 0 <= k < last.records@.len() && last.records@[k] == record;
                assert(last.records@[k].work_id@ == last.work_id@);
            }
            assert(last.records@.to_multiset().count(record) == 0);
        }
    }
}

/// In rows whose keys never go down, the group of a key holds every row of
/// that key, as often as the rows do: a record with the key of a group is
/// as often in the group as in the rows.
pub proof fn lemma_group_holds_its_rows(
    groups: Seq<WorkGroup>,
    records: Seq<InputRecord>,
    g: int,
    record: InputRecord,
)
    requires
        runs_of(groups, records),
        ascending(keys_of(records)),
        0 <= g < groups.len(),
        record.work_id@ == groups[g].work_id@,
    ensures
        groups[g].records@.to_multiset().count(record) == records.to_multiset().count(record),
{
    lemma_one_group_per_key(groups, records);
    lemma_count_in_groups(groups, groups.len() as int, g, record);
    assert(groups.take(groups.len() as int) =~= groups);
}

/// The rows of the table for groups of rows, group by group; the text of a
/// bracketed index that is no number ends it.
pub open spec fn reshaped_groups(groups: Seq<WorkGroup>, sources: PatternSources) -> Result<
    Seq<OutputRow>,
    Seq<char>,
>
    decreases groups.len(),
{
    if groups.len() == 0 {
        Ok(Seq::empty())
    } else {
        match reshaped_groups(groups.drop_last(), sources) {
            Err(text) => Err(text),
            Ok(before) => match reshaped(
                groups.last().work_id@,
                owned_text(groups.last().doi),
                input_rows(groups.last().records@),
                sources,
            ) {
                Ok(rows) => Ok(before + rows),
                Err(text) => Err(text),
            },
        }
    }
}

proof fn lemma_groups_error_stays(groups: Seq<WorkGroup>, sources: PatternSources, n: int)
    requires
        0 <= n <= groups.len(),
        reshaped_groups(groups.take(n), sources) is Err,
    ensures
        reshaped_groups(groups, sources) == reshaped_groups(groups.take(n), sources),
    decreases groups.len() - n,
{
    if n < groups.len() {
        assert(groups.take(n + 1).drop_last() =~= groups.take(n));
        lemma_groups_error_stays(groups, sources, n + 1);
    } else {
        assert(groups.take(n) =~= groups);
    }
}

/// Every row of the table has the key of one of the groups that it was made
/// from.
pub proof fn lemma_rows_key_a_group(groups: Seq<WorkGroup>, sources: PatternSources)
    requires
        reshaped_groups(groups, sources) is Ok,
    ensures
        forall|i: int|
            0 <= i < reshaped_groups(groups, sources)->Ok_0.len() ==> exists|g: int|
                0 <= g < groups.len() && (#[trigger] groups[g]).work_id@ == (
                #[trigger] reshaped_groups(groups, sources)->Ok_0[i]).work_id,
    decreases groups.len(),
{
    if groups.len() > 0 {
        let front = groups.drop_last();
        let last = groups.last();
        lemma_rows_key_a_group(front, sources);
        let before = reshaped_groups(front, sources)->Ok_0;
        let group = after_rows(no_group(), all_facts(input_rows(last.records@), sources))->Ok_0;
        let rows = materialized(group, last.work_id@, owned_text(last.doi));
        lemma_rows_have_the_key(group, last.work_id@, owned_text(last.doi));
        let all = reshaped_groups(groups, sources)->Ok_0;
        assert(all == before + rows);
        assert forall|i: int| 0 <= i < all.len() implies exists|g: int|
            0 <= g < groups.len() && (#[trigger] groups[g]).work_id@ == (#[trigger] all[i]).work_id by {
            if i < before.len() {
                assert(all[i] == before[i]);
                let g = choose|g: int|
                    0 <= g < front.len() && (#[trigger] front[g]).work_id@ == before[i].work_id;
                assert(groups[g] == front[g]);
            } else {
                assert(all[i] == rows[i - before.len()]);
                assert(groups[groups.len() - 1].work_id@ == all[i].work_id);
            }
        }
    }
}

/// However the groups are dealt out in two parts, the parts give the rows
/// that the whole gives: the rows depend on the groups alone, not on how
/// many are handed over at a time.
pub proof fn lemma_groups_in_parts(groups: Seq<WorkGroup>, n: int, sources: PatternSources)
    requires
        0 <= n <= groups.len(),
        reshaped_groups(groups, sources) is Ok,
    ensures
        reshaped_groups(groups.take(n), sources) is Ok,
        reshaped_groups(groups.skip(n), sources) is Ok,
        reshaped_groups(groups, sources)->Ok_0 == reshaped_groups(groups.take(n), sources)->Ok_0
            + reshaped_groups(groups.skip(n), sources)->Ok_0,
    decreases groups.len(),
{
    if n == groups.len() {
        assert(groups.take(n) =~= groups);
        assert(groups.skip(n) =~= Seq::empty());
        assert(reshaped_groups(groups, sources)->Ok_0 + Seq::<OutputRow>::empty()
            =~= reshaped_groups(groups, sources)->Ok_0);
    } else {
        let front = groups.drop_last();
        lemma_groups_in_parts(front, n, sources);
        assert(front.take(n) =~= groups.take(n));
        assert(front.skip(n) =~= groups.skip(n).drop_last());
        assert(groups.skip(n).last() == groups.last());
        let rows = reshaped(
            groups.last().work_id@,
            owned_text(groups.last().doi),
            input_rows(groups.last().records@),
            sources,
        )->Ok_0;
        let first = reshaped_groups(groups.take(n), sources)->Ok_0;
        let second = reshaped_groups(front.skip(n), sources)->Ok_0;
        assert((first + second) + rows =~= first + (second + rows));
    }
}

/// Reshapes groups of rows into the rows of the author/affiliation table,
/// group by group.
pub fn reshape_groups(groups: &Vec<WorkGroup>, patterns: &IndexPatterns) -> (r: Result<
    Vec<OutputRecord>,
    IndexParseError,
>)
    ensures
        match r {
            Ok(out) => reshaped_groups(groups@, patterns.sources()) == Ok::<
                Seq<OutputRow>,
                Seq<char>,
            >(output_rows(out@)),
            Err(e) => reshaped_groups(groups@, patterns.sources()) == Err::<
                Seq<OutputRow>,
                Seq<char>,
            >(e.text@),
        },
{
    let mut out: Vec<OutputRecord> = Vec::new();
    let mut i: usize = 0;
    assert(output_rows(out@) =~= Seq::empty());
    while i < groups.len()
        invariant
            i <= groups.len(),
            reshaped_groups(groups@.take(i as int), patterns.sources()) == Ok::<
                Seq<OutputRow>,
                Seq<char>,
            >(output_rows(out@)),
        decreases groups.len() - i,
    {
        proof {
            assert(groups@.take(i + 1).drop_last() =~= groups@.take(i as int));
            assert(groups@.take(i + 1).last() == groups@[i as int]);
        }
        let group = &groups[i];
        match process_work_group(group.work_id.as_str(), &group.doi, &group.records, patterns) {
            Ok(mut rows) => {
                let ghost before = out@;
                let ghost added = rows@;
                out.append(&mut rows);
                assert(output_rows(out@) =~= output_rows(before) + output_rows(added));
            },
            Err(e) => {
                proof {
                    lemma_groups_error_stays(groups@, patterns.sources(), i + 1);
                }
                return Err(e);
            },
        }
        i += 1;
    }
    assert(groups@.take(groups.len() as int) =~= groups@);
    Ok(out)
}

} // verus!
