//! The rows of the author/affiliation table that an author group gives: one
//! per author and affiliation, authors and affiliations in the order of
//! their sequence.

use vstd::prelude::*;
use crate::crossref::owned_text;
use crate::group::{
    author_position, lemma_author_position, tidy, AffiliationModel, AuthorGroup, AuthorModel,
    GroupModel, InstitutionModel,
};
use crate::normalize::{normalize_text, normalized};
use crate::text::{same_text, strs};

verus! {

/// One row of the author/affiliation table, as plain values.
pub ghost struct OutputRow {
    pub work_id: Seq<char>,
    pub doi: Option<Seq<char>>,
    pub author_sequence: u32,
    pub author_name: Seq<char>,
    pub normalized_author_name: Seq<char>,
    pub given_name: Seq<char>,
    pub normalized_given_name: Seq<char>,
    pub family_name: Seq<char>,
    pub normalized_family_name: Seq<char>,
    pub affiliation_sequence: Option<u32>,
    pub affiliation_name: Seq<char>,
    pub normalized_affiliation_name: Seq<char>,
    pub affiliation_ror: Seq<char>,
}

/// One row of the author/affiliation table. The author name is the display
/// name of the author, or the full name where there is no display name. An
/// author without affiliation has a row without affiliation sequence.
#[derive(Clone, Debug, PartialEq, Eq)]
pub struct OutputRecord {
    /// The key of the work: the work id for OpenAlex, the DOI for Crossref.
    pub work_id: String,
    pub doi: Option<String>,
    pub author_sequence: u32,
    pub author_name: String,
    pub normalized_author_name: String,
    pub given_name: String,
    pub normalized_given_name: String,
    pub family_name: String,
    pub normalized_family_name: String,
    pub affiliation_sequence: Option<u32>,
    pub affiliation_name: String,
    pub normalized_affiliation_name: String,
    pub affiliation_ror: String,
}

impl View for OutputRecord {
    type V = OutputRow;

    open spec fn view(&self) -> OutputRow {
        OutputRow {
            work_id: self.work_id@,
            doi: owned_text(self.doi),
            author_sequence: self.author_sequence,
            author_name: self.author_name@,
            normalized_author_name: self.normalized_author_name@,
            given_name: self.given_name@,
            normalized_given_name: self.normalized_given_name@,
            family_name: self.family_name@,
            normalized_family_name: self.normalized_family_name@,
            affiliation_sequence: self.affiliation_sequence,
            affiliation_name: self.affiliation_name@,
            normalized_affiliation_name: self.normalized_affiliation_name@,
            affiliation_ror: self.affiliation_ror@,
        }
    }
}

/// The rows that a sequence of output records holds.
pub open spec fn output_rows(v: Seq<OutputRecord>) -> Seq<OutputRow> {
    Seq::new(v.len(), |i: int| v[i]@)
}

/// One more than the largest index that a path can hold.
pub open spec fn index_limit() -> nat {
    0x1_0000_0000
}

/// `text`, or the empty text where there is none.
pub open spec fn text_or_empty(text: Option<Seq<char>>) -> Seq<char> {
    match text {
        Some(t) => t,
        None => Seq::empty(),
    }
}

/// The name of an author: the display name, or the full name where there
/// is no display name, or the empty text.
pub open spec fn name_of(author: AuthorModel) -> Seq<char> {
    match author.display_name {
        Some(name) => name,
        None => text_or_empty(author.full),
    }
}

/// The ROR that the group knows for the institution `id`: that of the last
/// institution with this id and a ROR.
pub open spec fn known_ror(institutions: Seq<InstitutionModel>, id: Seq<char>) -> Option<Seq<char>>
    decreases institutions.len(),
{
    if institutions.len() == 0 {
        None
    } else if institutions.last().id == Some(id) && institutions.last().ror is Some {
        institutions.last().ror
    } else {
        known_ror(institutions.drop_last(), id)
    }
}

/// The ROR of an affiliation: that of the first of its institution ids for
/// which the group knows one, else the empty text.
pub open spec fn first_ror(institutions: Seq<InstitutionModel>, ids: Seq<Seq<char>>) -> Seq<char>
    decreases ids.len(),
{
    if ids.len() == 0 {
        Seq::empty()
    } else {
        match known_ror(institutions, ids.first()) {
            Some(ror) => ror,
            None => first_ror(institutions, ids.drop_first()),
        }
    }
}

/// The row for an author and one of the author's affiliations.
pub open spec fn affiliation_row(
    group: GroupModel,
    author: AuthorModel,
    affiliation: AffiliationModel,
    work_id: Seq<char>,
    doi: Option<Seq<char>>,
) -> OutputRow {
    OutputRow {
        work_id,
        doi,
        author_sequence: author.sequence,
        author_name: name_of(author),
        normalized_author_name: normalized(name_of(author)),
        given_name: text_or_empty(author.given),
        normalized_given_name: normalized(text_or_empty(author.given)),
        family_name: text_or_empty(author.family),
        normalized_family_name: normalized(text_or_empty(author.family)),
        affiliation_sequence: Some(affiliation.sequence),
        affiliation_name: text_or_empty(affiliation.raw_string),
        normalized_affiliation_name: normalized(text_or_empty(affiliation.raw_string)),
        affiliation_ror: first_ror(group.institutions, affiliation.institution_ids),
    }
}

/// The row for an author without affiliations.
pub open spec fn bare_row(author: AuthorModel, work_id: Seq<char>, doi: Option<Seq<char>>) -> OutputRow {
    OutputRow {
        work_id,
        doi,
        author_sequence: author.sequence,
        author_name: name_of(author),
        normalized_author_name: normalized(name_of(author)),
        given_name: text_or_empty(author.given),
        normalized_given_name: normalized(text_or_empty(author.given)),
        family_name: text_or_empty(author.family),
        normalized_family_name: normalized(text_or_empty(author.family)),
        affiliation_sequence: None,
        affiliation_name: Seq::empty(),
        normalized_affiliation_name: Seq::empty(),
        affiliation_ror: Seq::empty(),
    }
}

/// The rows for those of the first `n` affiliations that belong to `author`
/// and have the sequence `sequence`, in order.
pub open spec fn rows_at(
    group: GroupModel,
    author: AuthorModel,
    sequence: u32,
    n: nat,
    work_id: Seq<char>,
    doi: Option<Seq<char>>,
) -> Seq<OutputRow>
    decreases n,
{
    if n == 0 || n > group.affiliations.len() {
        Seq::empty()
    } else {
        let before = rows_at(group, author, sequence, (n - 1) as nat, work_id, doi);
        let affiliation = group.affiliations[n - 1];
        if affiliation.author == author.sequence && affiliation.sequence == sequence {
            before.push(affiliation_row(group, author, affiliation, work_id, doi))
        } else {
            before
        }
    }
}

/// The rows for the affiliations of `author` with a sequence below `bound`,
/// by sequence. In a tidy group no two affiliations of an author have the
/// same sequence; where two have, they come in the order in which the rows
/// first named them.
pub open spec fn rows_below(
    group: GroupModel,
    author: AuthorModel,
    bound: nat,
    work_id: Seq<char>,
    doi: Option<Seq<char>>,
) -> Seq<OutputRow>
    decreases bound,
{
    if bound == 0 {
        Seq::empty()
    } else {
        rows_below(group, author, (bound - 1) as nat, work_id, doi) + rows_at(
            group,
            author,
            (bound - 1) as u32,
            group.affiliations.len(),
            work_id,
            doi,
        )
    }
}

/// Whether `author` has an affiliation.
pub open spec fn has_affiliation(group: GroupModel, author: u32) -> bool {
    exists|i: int| 0 <= i < group.affiliations.len() && (#[trigger] group.affiliations[i]).author == author
}

/// The rows of one author: one per affiliation, or one without affiliation
/// where the author has none.
pub open spec fn author_rows(
    group: GroupModel,
    author: AuthorModel,
    work_id: Seq<char>,
    doi: Option<Seq<char>>,
) -> Seq<OutputRow> {
    if has_affiliation(group, author.sequence) {
        rows_below(group, author, index_limit(), work_id, doi)
    } else {
        seq![bare_row(author, work_id, doi)]
    }
}

/// The rows of the authors with a sequence below `bound`, by sequence.
pub open spec fn group_rows_below(
    group: GroupModel,
    bound: nat,
    work_id: Seq<char>,
    doi: Option<Seq<char>>,
) -> Seq<OutputRow>
    decreases bound,
{
    if bound == 0 {
        Seq::empty()
    } else {
        group_rows_below(group, (bound - 1) as nat, work_id, doi) + match author_position(
            group.authors,
            (bound - 1) as u32,
        ) {
            Some(i) => author_rows(group, group.authors[i], work_id, doi),
            None => Seq::empty(),
        }
    }
}

/// The rows that the group of the work `work_id` gives.
pub open spec fn materialized(group: GroupModel, work_id: Seq<char>, doi: Option<Seq<char>>) -> Seq<
    OutputRow,
> {
    group_rows_below(group, index_limit(), work_id, doi)
}

proof fn lemma_rows_at_none(
    group: GroupModel,
    author: AuthorModel,
    sequence: u32,
    n: nat,
    work_id: Seq<char>,
    doi: Option<Seq<char>>,
)
    requires
        forall|k: int|
            0 <= k < group.affiliations.len() ==> !((#[trigger] group.affiliations[k]).author
                == author.sequence && group.affiliations[k].sequence == sequence),
    ensures
        rows_at(group, author, sequence, n, work_id, doi) == Seq::<OutputRow>::empty(),
    decreases n,
{
    if n > 0 && n <= group.affiliations.len() {
        lemma_rows_at_none(group, author, sequence, (n - 1) as nat, work_id, doi);
    }
}

proof fn lemma_rows_gap(
    group: GroupModel,
    author: AuthorModel,
    low: nat,
    high: nat,
    work_id: Seq<char>,
    doi: Option<Seq<char>>,
)
    requires
        low <= high <= index_limit(),
        forall|k: int|
            0 <= k < group.affiliations.len() && (#[trigger] group.affiliations[k]).author
                == author.sequence ==> !(low <= group.affiliations[k].sequence < high),
    ensures
        rows_below(group, author, high, work_id, doi) == rows_below(
            group,
            author,
            low,
            work_id,
            doi,
        ),
    decreases high - low,
{
    if low < high {
        lemma_rows_gap(group, author, low, (high - 1) as nat, work_id, doi);
        lemma_rows_at_none(
            group,
            author,
            (high - 1) as u32,
            group.affiliations.len(),
            work_id,
            doi,
        );
        assert(rows_below(group, author, (high - 1) as nat, work_id, doi) + Seq::<
            OutputRow,
        >::empty() =~= rows_below(group, author, (high - 1) as nat, work_id, doi));
    }
}

proof fn lemma_group_gap(
    group: GroupModel,
    low: nat,
    high: nat,
    work_id: Seq<char>,
    doi: Option<Seq<char>>,
)
    requires
        low <= high <= index_limit(),
        forall|k: int|
            0 <= k < group.authors.len() ==> !(low <= (#[trigger] group.authors[k]).sequence
                < high),
    ensures
        group_rows_below(group, high, work_id, doi) == group_rows_below(group, low, work_id, doi),
    decreases high - low,
{
    if low < high {
        lemma_group_gap(group, low, (high - 1) as nat, work_id, doi);
        lemma_author_position(group.authors, (high - 1) as u32);
        assert(group_rows_below(group, (high - 1) as nat, work_id, doi) + Seq::<
            OutputRow,
        >::empty() =~= group_rows_below(group, (high - 1) as nat, work_id, doi));
    }
}

proof fn lemma_rows_at_keyed(
    group: GroupModel,
    author: AuthorModel,
    sequence: u32,
    n: nat,
    work_id: Seq<char>,
    doi: Option<Seq<char>>,
)
    ensures
        forall|i: int|
            0 <= i < rows_at(group, author, sequence, n, work_id, doi).len() ==> (#[trigger] rows_at(
                group,
                author,
                sequence,
                n,
                work_id,
                doi,
            )[i]).work_id == work_id && rows_at(group, author, sequence, n, work_id, doi)[i].doi == doi,
    decreases n,
{
    if n > 0 && n <= group.affiliations.len() {
        lemma_rows_at_keyed(group, author, sequence, (n - 1) as nat, work_id, doi);
    }
}

proof fn lemma_rows_below_keyed(
    group: GroupModel,
    author: AuthorModel,
    bound: nat,
    work_id: Seq<char>,
    doi: Option<Seq<char>>,
)
    ensures
        forall|i: int|
            0 <= i < rows_below(group, author, bound, work_id, doi).len() ==> (#[trigger] rows_below(
                group,
                author,
                bound,
                work_id,
                doi,
            )[i]).work_id == work_id && rows_below(group, author, bound, work_id, doi)[i].doi == doi,
    decreases bound,
{
    if bound > 0 {
        lemma_rows_below_keyed(group, author, (bound - 1) as nat, work_id, doi);
        lemma_rows_at_keyed(
            group,
            author,
            (bound - 1) as u32,
            group.affiliations.len(),
            work_id,
            doi,
        );
    }
}

proof fn lemma_group_rows_keyed(
    group: GroupModel,
    bound: nat,
    work_id: Seq<char>,
    doi: Option<Seq<char>>,
)
    ensures
        forall|i: int|
            0 <= i < group_rows_below(group, bound, work_id, doi).len() ==> (
            #[trigger] group_rows_below(group, bound, work_id, doi)[i]).work_id == work_id
                && group_rows_below(group, bound, work_id, doi)[i].doi == doi,
    decreases bound,
{
    if bound > 0 {
        lemma_group_rows_keyed(group, (bound - 1) as nat, work_id, doi);
        match author_position(group.authors, (bound - 1) as u32) {
            Some(at) => {
                lemma_rows_below_keyed(group, group.authors[at], index_limit(), work_id, doi);
            },
            None => {},
        }
    }
}

/// Every row of the table for a work has the key of the work and the DOI
/// that was handed in.
pub proof fn lemma_rows_have_the_key(group: GroupModel, work_id: Seq<char>, doi: Option<Seq<char>>)
    ensures
        forall|i: int|
            0 <= i < materialized(group, work_id, doi).len() ==> (#[trigger] materialized(
                group,
                work_id,
                doi,
            )[i]).work_id == work_id && materialized(group, work_id, doi)[i].doi == doi,
{
    lemma_group_rows_keyed(group, index_limit(), work_id, doi);
}

/// The number of those of the first `n` affiliations that belong to the
/// author `author`.
pub open spec fn affiliations_of(group: GroupModel, author: u32, n: nat) -> nat
    decreases n,
{
    if n == 0 || n > group.affiliations.len() {
        0
    } else if group.affiliations[n - 1].author == author {
        affiliations_of(group, author, (n - 1) as nat) + 1
    } else {
        affiliations_of(group, author, (n - 1) as nat)
    }
}

/// The number of rows that the authors with a sequence below `bound` are
/// due: each one row per affiliation, and one row where it has none.
pub open spec fn rows_due(group: GroupModel, bound: nat) -> nat
    decreases bound,
{
    if bound == 0 {
        0
    } else {
        let earlier = rows_due(group, (bound - 1) as nat);
        if author_position(group.authors, (bound - 1) as u32) is Some {
            let own = affiliations_of(group, (bound - 1) as u32, group.affiliations.len());
            if own == 0 {
                earlier + 1
            } else {
                earlier + own
            }
        } else {
            earlier
        }
    }
}

spec fn sequences_below(group: GroupModel, author: u32, bound: nat, n: nat) -> nat
    decreases n,
{
    if n == 0 || n > group.affiliations.len() {
        0
    } else if group.affiliations[n - 1].author == author && group.affiliations[n - 1].sequence
        < bound {
        sequences_below(group, author, bound, (n - 1) as nat) + 1
    } else {
        sequences_below(group, author, bound, (n - 1) as nat)
    }
}

proof fn lemma_rows_at_counted(
    group: GroupModel,
    author: AuthorModel,
    sequence: u32,
    n: nat,
    work_id: Seq<char>,
    doi: Option<Seq<char>>,
)
    ensures
        rows_at(group, author, sequence, n, work_id, doi).len() + sequences_below(
            group,
            author.sequence,
            sequence as nat,
            n,
        ) == sequences_below(group, author.sequence, (sequence + 1) as nat, n),
    decreases n,
{
    if n > 0 && n <= group.affiliations.len() {
        lemma_rows_at_counted(group, author, sequence, (n - 1) as nat, work_id, doi);
    }
}

proof fn lemma_rows_below_counted(
    group: GroupModel,
    author: AuthorModel,
    bound: nat,
    work_id: Seq<char>,
    doi: Option<Seq<char>>,
)
    requires
        bound <= index_limit(),
    ensures
        rows_below(group, author, bound, work_id, doi).len() == sequences_below(
            group,
            author.sequence,
            bound,
            group.affiliations.len(),
        ),
    decreases bound,
{
    if bound > 0 {
        lemma_rows_below_counted(group, author, (bound - 1) as nat, work_id, doi);
        lemma_rows_at_counted(
            group,
            author,
            (bound - 1) as u32,
            group.affiliations.len(),
            work_id,
            doi,
        );
    } else {
        lemma_none_below(group, author.sequence, group.affiliations.len());
    }
}

proof fn lemma_none_below(group: GroupModel, author: u32, n: nat)
    ensures
        sequences_below(group, author, 0, n) == 0,
    decreases n,
{
    if n > 0 && n <= group.affiliations.len() {
        lemma_none_below(group, author, (n - 1) as nat);
    }
}

proof fn lemma_all_below(group: GroupModel, author: u32, n: nat)
    requires
        n <= group.affiliations.len(),
    ensures
        sequences_below(group, author, index_limit(), n) == affiliations_of(group, author, n),
        affiliations_of(group, author, n) > 0 <==> exists|i: int|
            0 <= i < n && (#[trigger] group.affiliations[i]).author == author,
    decreases n,
{
    if n > 0 {
        lemma_all_below(group, author, (n - 1) as nat);
        if affiliations_of(group, author, n) > 0 {
            if group.affiliations[n - 1].author == author {
            } else {
                let i = choose|i: int|
                    0 <= i < n - 1 && (#[trigger] group.affiliations[i]).author == author;
                assert(0 <= i < n && group.affiliations[i].author == author);
            }
        }
        if exists|i: int| 0 <= i < n && (#[trigger] group.affiliations[i]).author == author {
            let i = choose|i: int| 0 <= i < n && (#[trigger] group.affiliations[i]).author == author;
            if i < n - 1 {
                assert(0 <= i < n - 1 && group.affiliations[i].author == author);
            }
        }
    }
}

proof fn lemma_group_rows_counted(
    group: GroupModel,
    bound: nat,
    work_id: Seq<char>,
    doi: Option<Seq<char>>,
)
    requires
        bound <= index_limit(),
    ensures
        group_rows_below(group, bound, work_id, doi).len() == rows_due(group, bound),
    decreases bound,
{
    if bound > 0 {
        lemma_group_rows_counted(group, (bound - 1) as nat, work_id, doi);
        match author_position(group.authors, (bound - 1) as u32) {
            Some(at) => {
                let author = group.authors[at];
                lemma_author_position(group.authors, (bound - 1) as u32);
                lemma_all_below(group, author.sequence, group.affiliations.len());
                lemma_rows_below_counted(group, author, index_limit(), work_id, doi);
            },
            None => {},
        }
    }
}

/// The table of a work has one row for each affiliation of each author,
/// and one row for each author without an affiliation.
pub proof fn lemma_row_count(group: GroupModel, work_id: Seq<char>, doi: Option<Seq<char>>)
    ensures
        materialized(group, work_id, doi).len() == rows_due(group, index_limit()),
{
    lemma_group_rows_counted(group, index_limit(), work_id, doi);
}

/// Whether the row `a` comes before the row `b` in the table: its author
/// comes first, or it is an earlier affiliation of the same author.
pub open spec fn row_before(a: OutputRow, b: OutputRow) -> bool {
    a.author_sequence < b.author_sequence || (a.author_sequence == b.author_sequence
        && a.affiliation_sequence is Some && b.affiliation_sequence is Some
        && a.affiliation_sequence->0 < b.affiliation_sequence->0)
}

/// Whether the rows go up strictly: by author sequence, and within an
/// author by affiliation sequence. No author and affiliation comes twice
/// then.
pub open spec fn in_order(rows: Seq<OutputRow>) -> bool {
    forall|i: int, j: int| 0 <= i < j < rows.len() ==> row_before(#[trigger] rows[i], #[trigger] rows[j])
}

proof fn lemma_in_order_add(a: Seq<OutputRow>, b: Seq<OutputRow>)
    requires
        in_order(a),
        in_order(b),
        forall|i: int, j: int|
            0 <= i < a.len() && 0 <= j < b.len() ==> row_before(#[trigger] a[i], #[trigger] b[j]),
    ensures
        in_order(a + b),
{
    let all = a + b;
    assert forall|i: int, j: int| 0 <= i < j < all.len() implies row_before(
        #[trigger] all[i],
        #[trigger] all[j],
    ) by {
        if j < a.len() {
            assert(all[i] == a[i] && all[j] == a[j]);
        } else if i < a.len() {
            assert(all[i] == a[i] && all[j] == b[j - a.len()]);
        } else {
            assert(all[i] == b[i - a.len()] && all[j] == b[j - a.len()]);
        }
    }
}

proof fn lemma_rows_at_one(
    group: GroupModel,
    author: AuthorModel,
    sequence: u32,
    n: nat,
    work_id: Seq<char>,
    doi: Option<Seq<char>>,
)
    requires
        tidy(group),
    ensures
        rows_at(group, author, sequence, n, work_id, doi).len() <= 1,
        forall|i: int|
            0 <= i < rows_at(group, author, sequence, n, work_id, doi).len() ==> (#[trigger] rows_at(
                group,
                author,
                sequence,
                n,
                work_id,
                doi,
            )[i]).author_sequence == author.sequence && rows_at(
                group,
                author,
                sequence,
                n,
                work_id,
                doi,
            )[i].affiliation_sequence == Some(sequence),
    decreases n,
{
    if n > 0 && n <= group.affiliations.len() {
        lemma_rows_at_one(group, author, sequence, (n - 1) as nat, work_id, doi);
        let last = group.affiliations[n - 1];
        if last.author == author.sequence && last.sequence == sequence {
            let before = rows_at(group, author, sequence, (n - 1) as nat, work_id, doi);
            if before.len() > 0 {
                lemma_rows_at_some(group, author, sequence, (n - 1) as nat, work_id, doi);
                let k = choose|k: int|
                    0 <= k < n - 1 && (#[trigger] group.affiliations[k]).author == author.sequence
                        && group.affiliations[k].sequence == sequence;
                assert(group.affiliations[k].index == last.index);
                assert(false);
            }
        }
    }
}

proof fn lemma_rows_at_some(
    group: GroupModel,
    author: AuthorModel,
    sequence: u32,
    n: nat,
    work_id: Seq<char>,
    doi: Option<Seq<char>>,
)
    requires
        rows_at(group, author, sequence, n, work_id, doi).len() > 0,
    ensures
        exists|k: int|
            0 <= k < n && k < group.affiliations.len() && (#[trigger] group.affiliations[k]).author
                == author.sequence && group.affiliations[k].sequence == sequence,
    decreases n,
{
    if n > 0 && n <= group.affiliations.len() {
        let last = group.affiliations[n - 1];
        if last.author == author.sequence && last.sequence == sequence {
        } else {
            lemma_rows_at_some(group, author, sequence, (n - 1) as nat, work_id, doi);
        }
    }
}

proof fn lemma_rows_below_order(
    group: GroupModel,
    author: AuthorModel,
    bound: nat,
    work_id: Seq<char>,
    doi: Option<Seq<char>>,
)
    requires
        tidy(group),
        bound <= index_limit(),
    ensures
        in_order(rows_below(group, author, bound, work_id, doi)),
        forall|i: int|
            0 <= i < rows_below(group, author, bound, work_id, doi).len() ==> (#[trigger] rows_below(
                group,
                author,
                bound,
                work_id,
                doi,
            )[i]).author_sequence == author.sequence && rows_below(
                group,
                author,
                bound,
                work_id,
                doi,
            )[i].affiliation_sequence is Some && rows_below(
                group,
                author,
                bound,
                work_id,
                doi,
            )[i].affiliation_sequence->0 < bound,
    decreases bound,
{
    if bound > 0 {
        let before = rows_below(group, author, (bound - 1) as nat, work_id, doi);
        let here = rows_at(
            group,
            author,
            (bound - 1) as u32,
            group.affiliations.len(),
            work_id,
            doi,
        );
        lemma_rows_below_order(group, author, (bound - 1) as nat, work_id, doi);
        lemma_rows_at_one(
            group,
            author,
            (bound - 1) as u32,
            group.affiliations.len(),
            work_id,
            doi,
        );
        lemma_in_order_add(before, here);
        let all = before + here;
        assert forall|i: int| 0 <= i < all.len() implies (#[trigger] all[i]).author_sequence
            == author.sequence && all[i].affiliation_sequence is Some
            && all[i].affiliation_sequence->0 < bound by {
            if i < before.len() {
                assert(all[i] == before[i]);
            } else {
                assert(all[i] == here[i - before.len()]);
            }
        }
    }
}

proof fn lemma_group_rows_order(
    group: GroupModel,
    bound: nat,
    work_id: Seq<char>,
    doi: Option<Seq<char>>,
)
    requires
        tidy(group),
        bound <= index_limit(),
    ensures
        in_order(group_rows_below(group, bound, work_id, doi)),
        forall|i: int|
            0 <= i < group_rows_below(group, bound, work_id, doi).len() ==> (
            #[trigger] group_rows_below(group, bound, work_id, doi)[i]).author_sequence < bound,
    decreases bound,
{
    if bound > 0 {
        let before = group_rows_below(group, (bound - 1) as nat, work_id, doi);
        lemma_group_rows_order(group, (bound - 1) as nat, work_id, doi);
        match author_position(group.authors, (bound - 1) as u32) {
            Some(at) => {
                let author = group.authors[at];
                lemma_author_position(group.authors, (bound - 1) as u32);
                let here = author_rows(group, author, work_id, doi);
                if has_affiliation(group, author.sequence) {
                    lemma_rows_below_order(group, author, index_limit(), work_id, doi);
                }
                assert forall|i: int| 0 <= i < here.len() implies (#[trigger] here[i]).author_sequence
                    == bound - 1 by {}
                lemma_in_order_add(before, here);
                let all = before + here;
                assert forall|i: int| 0 <= i < all.len() implies (#[trigger] all[i]).author_sequence
                    < bound by {
                    if i < before.len() {
                        assert(all[i] == before[i]);
                    } else {
                        assert(all[i] == here[i - before.len()]);
                    }
                }
            },
            None => {
                assert(before + Seq::<OutputRow>::empty() =~= before);
            },
        }
    }
}

/// The rows of the table for a tidy group go up strictly, by author
/// sequence and within an author by affiliation sequence: no author and
/// affiliation is written twice.
pub proof fn lemma_rows_in_order(group: GroupModel, work_id: Seq<char>, doi: Option<Seq<char>>)
    requires
        tidy(group),
    ensures
        in_order(materialized(group, work_id, doi)),
{
    lemma_group_rows_order(group, index_limit(), work_id, doi);
}

fn text_of(text: &Option<String>) -> (out: String)
    ensures
        out@ == text_or_empty(owned_text(*text)),
{
    match text {
        Some(t) => t.clone(),
        None => String::new(),
    }
}

fn copy_of(text: &Option<String>) -> (out: Option<String>)
    ensures
        owned_text(out) == owned_text(*text),
{
    match text {
        Some(t) => Some(t.clone()),
        None => None,
    }
}

/// The names of an author as the rows of the table hold them.
struct AuthorTexts {
    name: String,
    normalized_name: String,
    given: String,
    normalized_given: String,
    family: String,
    normalized_family: String,
}

impl AuthorTexts {
    spec fn of(self, author: AuthorModel) -> bool {
        &&& self.name@ == name_of(author)
        &&& self.normalized_name@ == normalized(name_of(author))
        &&& self.given@ == text_or_empty(author.given)
        &&& self.normalized_given@ == normalized(text_or_empty(author.given))
        &&& self.family@ == text_or_empty(author.family)
        &&& self.normalized_family@ == normalized(text_or_empty(author.family))
    }

    fn new(author: &crate::group::Author) -> (texts: AuthorTexts)
        ensures
            texts.of(author@),
    {
        let name = match &author.display_name {
            Some(name) => name.clone(),
            None => text_of(&author.full),
        };
        let given = text_of(&author.given);
        let family = text_of(&author.family);
        let normalized_name = normalize_text(name.as_str());
        let normalized_given = normalize_text(given.as_str());
        let normalized_family = normalize_text(family.as_str());
        AuthorTexts { name, normalized_name, given, normalized_given, family, normalized_family }
    }
}

impl AuthorGroup {
    /// The ROR that the group knows for the institution `id`.
    pub fn ror_of(&self, id: &str) -> (r: Option<&String>)
        ensures
            r is Some == known_ror(self@.institutions, id@) is Some,
            r matches Some(ror) ==> Some(ror@) == known_ror(self@.institutions, id@),
    {
        let mut i: usize = self.institutions.len();
        assert(self@.institutions.take(i as int) =~= self@.institutions);
        while i > 0
            invariant
                i <= self.institutions.len(),
                known_ror(self@.institutions, id@) == known_ror(
                    self@.institutions.take(i as int),
                    id@,
                ),
            decreases i,
        {
            i -= 1;
            proof {
                assert(self@.institutions.take(i + 1).drop_last() =~= self@.institutions.take(
                    i as int,
                ));
                assert(self@.institutions.take(i + 1).last() == self.institutions@[i as int]@);
            }
            let institution = &self.institutions[i];
            match &institution.id {
                Some(known) => {
                    if same_text(known.as_str(), id) {
                        match &institution.ror {
                            Some(ror) => {
                                return Some(ror);
                            },
                            None => {},
                        }
                    }
                },
                None => {},
            }
        }
        assert(self@.institutions.take(0).len() == 0);
        None
    }

    /// The ROR of an affiliation with the institution ids `ids`.
    pub fn affiliation_ror(&self, ids: &Vec<String>) -> (out: String)
        ensures
            out@ == first_ror(self@.institutions, strs(ids@)),
    {
        let mut i: usize = 0;
        assert(strs(ids@).skip(0) =~= strs(ids@));
        while i < ids.len()
            invariant
                i <= ids.len(),
                first_ror(self@.institutions, strs(ids@)) == first_ror(
                    self@.institutions,
                    strs(ids@).skip(i as int),
                ),
            decreases ids.len() - i,
        {
            proof {
                assert(strs(ids@).skip(i as int).first() == ids@[i as int]@);
                assert(strs(ids@).skip(i as int).drop_first() =~= strs(ids@).skip(i + 1));
            }
            match self.ror_of(ids[i].as_str()) {
                Some(ror) => {
                    return ror.clone();
                },
                None => {},
            }
            i += 1;
        }
        String::new()
    }

    /// The author with the least sequence that is at least `bound`: the
    /// position and the sequence.
    fn next_author(&self, bound: u64) -> (r: Option<(usize, u32)>)
        ensures
            match r {
                Some((at, sequence)) => at < self.authors@.len() && author_position(
                    self@.authors,
                    sequence,
                ) == Some(at as int) && bound <= sequence && forall|k: int|
                    0 <= k < self.authors@.len() ==> !(bound <= (#[trigger] self@.authors[k]).sequence
                        < sequence),
                None => forall|k: int|
                    0 <= k < self.authors@.len() ==> (#[trigger] self@.authors[k]).sequence
                        < bound,
            },
    {
        let mut best: Option<(usize, u32)> = None;
        let mut i: usize = 0;
        while i < self.authors.len()
            invariant
                i <= self.authors.len(),
                match best {
                    Some((at, sequence)) => at < i && self@.authors[at as int].sequence
                        == sequence && bound <= sequence && (forall|k: int|
                        0 <= k < i ==> !(bound <= (#[trigger] self@.authors[k]).sequence
                            < sequence)) && (forall|k: int|
                        0 <= k < at ==> (#[trigger] self@.authors[k]).sequence != sequence),
                    None => forall|k: int|
                        0 <= k < i ==> (#[trigger] self@.authors[k]).sequence < bound,
                },
            decreases self.authors.len() - i,
        {
            let sequence = self.authors[i].sequence;
            assert(self@.authors[i as int].sequence == sequence);
            if sequence as u64 >= bound {
                let better = match best {
                    Some((_, least)) => sequence < least,
                    None => true,
                };
                if better {
                    best = Some((i, sequence));
                }
            }
            i += 1;
        }
        proof {
            match best {
                Some((at, sequence)) => {
                    lemma_author_position(self@.authors, sequence);
                },
                None => {},
            }
        }
        best
    }

    /// The least sequence, at least `bound`, of an affiliation of `author`.
    fn next_sequence(&self, author: u32, bound: u64) -> (r: Option<u32>)
        ensures
            match r {
                Some(sequence) => bound <= sequence && (exists|k: int|
                    0 <= k < self.affiliations@.len() && (#[trigger] self@.affiliations[k]).author
                        == author && self@.affiliations[k].sequence == sequence) && forall|k: int|
                    0 <= k < self.affiliations@.len() && (#[trigger] self@.affiliations[k]).author
                        == author ==> !(bound <= self@.affiliations[k].sequence < sequence),
                None => forall|k: int|
                    0 <= k < self.affiliations@.len() && (#[trigger] self@.affiliations[k]).author
                        == author ==> self@.affiliations[k].sequence < bound,
            },
    {
        let mut best: Option<u32> = None;
        let mut i: usize = 0;
        while i < self.affiliations.len()
            invariant
                i <= self.affiliations.len(),
                match best {
                    Some(sequence) => bound <= sequence && (exists|k: int|
                        0 <= k < i && (#[trigger] self@.affiliations[k]).author == author
                            && self@.affiliations[k].sequence == sequence) && forall|k: int|
                        0 <= k < i && (#[trigger] self@.affiliations[k]).author == author ==> !(
                        bound <= self@.affiliations[k].sequence < sequence),
                    None => forall|k: int|
                        0 <= k < i && (#[trigger] self@.affiliations[k]).author == author
                            ==> self@.affiliations[k].sequence < bound,
                },
            decreases self.affiliations.len() - i,
        {
            let affiliation = &self.affiliations[i];
            assert(self@.affiliations[i as int] == affiliation@);
            if affiliation.author == author && affiliation.sequence as u64 >= bound {
                let better = match best {
                    Some(least) => affiliation.sequence < least,
                    None => true,
                };
                if better {
                    best = Some(affiliation.sequence);
                }
            }
            i += 1;
        }
        best
    }

    /// Appends the rows for the affiliations of the author at `at` that
    /// have the sequence `sequence`.
    fn push_rows_at(
        &self,
        at: usize,
        sequence: u32,
        work_id: &str,
        doi: &Option<String>,
        out: &mut Vec<OutputRecord>,
    )
        requires
            at < self.authors@.len(),
        ensures
            output_rows(final(out)@) == output_rows(old(out)@) + rows_at(
                self@,
                self@.authors[at as int],
                sequence,
                self@.affiliations.len(),
                work_id@,
                owned_text(*doi),
            ),
    {
        let author = &self.authors[at];
        let texts = AuthorTexts::new(author);
        let ghost start = output_rows(out@);
        let ghost who = self@.authors[at as int];
        assert(who == author@);
        assert(start + Seq::<OutputRow>::empty() =~= start);
        let mut n: usize = 0;
        while n < self.affiliations.len()
            invariant
                n <= self.affiliations.len(),
                at < self.authors@.len(),
                who == self@.authors[at as int],
                who == author@,
                texts.of(who),
                output_rows(out@) == start + rows_at(
                    self@,
                    who,
                    sequence,
                    n as nat,
                    work_id@,
                    owned_text(*doi),
                ),
            decreases self.affiliations.len() - n,
        {
            let affiliation = &self.affiliations[n];
            assert(self@.affiliations[n as int] == affiliation@);
            if affiliation.author == author.sequence && affiliation.sequence == sequence {
                let affiliation_name = text_of(&affiliation.raw_string);
                let normalized_affiliation_name = normalize_text(affiliation_name.as_str());
                let record = OutputRecord {
                    work_id: work_id.to_owned(),
                    doi: copy_of(doi),
                    author_sequence: author.sequence,
                    author_name: texts.name.clone(),
                    normalized_author_name: texts.normalized_name.clone(),
                    given_name: texts.given.clone(),
                    normalized_given_name: texts.normalized_given.clone(),
                    family_name: texts.family.clone(),
                    normalized_family_name: texts.normalized_family.clone(),
                    affiliation_sequence: Some(affiliation.sequence),
                    affiliation_name,
                    normalized_affiliation_name,
                    affiliation_ror: self.affiliation_ror(&affiliation.institution_ids),
                };
                let ghost before = out@;
                out.push(record);
                proof {
                    assert(record@ == affiliation_row(
                        self@,
                        who,
                        affiliation@,
                        work_id@,
                        owned_text(*doi),
                    ));
                    assert(output_rows(out@) =~= output_rows(before).push(record@));
                    assert(output_rows(out@) =~= start + rows_at(
                        self@,
                        who,
                        sequence,
                        (n + 1) as nat,
                        work_id@,
                        owned_text(*doi),
                    ));
                }
            }
            n += 1;
        }
    }

    /// Appends the rows of the author at `at`.
    fn push_author_rows(
        &self,
        at: usize,
        work_id: &str,
        doi: &Option<String>,
        out: &mut Vec<OutputRecord>,
    )
        requires
            at < self.authors@.len(),
        ensures
            output_rows(final(out)@) == output_rows(old(out)@) + author_rows(
                self@,
                self@.authors[at as int],
                work_id@,
                owned_text(*doi),
            ),
    {
        let ghost start = output_rows(out@);
        let ghost who = self@.authors[at as int];
        let author = &self.authors[at];
        assert(who == author@);
        let mut bound: u64 = 0;
        let mut any = false;
        assert(start + Seq::<OutputRow>::empty() =~= start);
        loop
            invariant
                at < self.authors@.len(),
                who == self@.authors[at as int],
                who.sequence == author.sequence,
                bound <= index_limit(),
                any ==> has_affiliation(self@, who.sequence),
                !any ==> bound == 0,
                output_rows(out@) == start + rows_below(
                    self@,
                    who,
                    bound as nat,
                    work_id@,
                    owned_text(*doi),
                ),
            ensures
                has_affiliation(self@, who.sequence) ==> output_rows(out@) == start + rows_below(
                    self@,
                    who,
                    index_limit(),
                    work_id@,
                    owned_text(*doi),
                ),
                !has_affiliation(self@, who.sequence) ==> output_rows(out@) == start,
                any == has_affiliation(self@, who.sequence),
            decreases index_limit() - bound,
        {
            match self.next_sequence(author.sequence, bound) {
                Some(sequence) => {
                    proof {
                        lemma_rows_gap(
                            self@,
                            who,
                            bound as nat,
                            sequence as nat,
                            work_id@,
                            owned_text(*doi),
                        );
                    }
                    let ghost so_far = output_rows(out@);
                    self.push_rows_at(at, sequence, work_id, doi, out);
                    proof {
                        assert(start + rows_below(
                            self@,
                            who,
                            sequence as nat,
                            work_id@,
                            owned_text(*doi),
                        ) + rows_at(
                            self@,
                            who,
                            sequence,
                            self@.affiliations.len(),
                            work_id@,
                            owned_text(*doi),
                        ) =~= start + rows_below(
                            self@,
                            who,
                            (sequence + 1) as nat,
                            work_id@,
                            owned_text(*doi),
                        ));
                    }
                    any = true;
                    bound = sequence as u64 + 1;
                },
                None => {
                    proof {
                        lemma_rows_gap(
                            self@,
                            who,
                            bound as nat,
                            index_limit(),
                            work_id@,
                            owned_text(*doi),
                        );
                        if !any {
                            assert(!has_affiliation(self@, who.sequence));
                        }
                    }
                    break ;
                },
            }
        }
        if !any {
            let texts = AuthorTexts::new(author);
            let record = OutputRecord {
                work_id: work_id.to_owned(),
                doi: copy_of(doi),
                author_sequence: author.sequence,
                author_name: texts.name,
                normalized_author_name: texts.normalized_name,
                given_name: texts.given,
                normalized_given_name: texts.normalized_given,
                family_name: texts.family,
                normalized_family_name: texts.normalized_family,
                affiliation_sequence: None,
                affiliation_name: String::new(),
                normalized_affiliation_name: String::new(),
                affiliation_ror: String::new(),
            };
            let ghost before = out@;
            out.push(record);
            proof {
                assert(record@ == bare_row(who, work_id@, owned_text(*doi)));
                assert(output_rows(out@) =~= output_rows(before).push(record@));
                assert(output_rows(out@) =~= start + seq![bare_row(who, work_id@, owned_text(*doi))]);
            }
        }
    }

    /// The rows of the table for this group: authors by sequence, the
    /// affiliations of each by sequence, and one row without affiliation
    /// for an author who has none.
    pub fn materialize(&self, work_id: &str, doi: &Option<String>) -> (out: Vec<OutputRecord>)
        ensures
            output_rows(out@) == materialized(self@, work_id@, owned_text(*doi)),
    {
        let mut out: Vec<OutputRecord> = Vec::new();
        let mut bound: u64 = 0;
        assert(output_rows(out@) =~= Seq::empty());
        loop
            invariant
                bound <= index_limit(),
                output_rows(out@) == group_rows_below(
                    self@,
                    bound as nat,
                    work_id@,
                    owned_text(*doi),
                ),
            ensures
                output_rows(out@) == materialized(self@, work_id@, owned_text(*doi)),
            decreases index_limit() - bound,
        {
            match self.next_author(bound) {
                Some((at, sequence)) => {
                    proof {
                        lemma_group_gap(
                            self@,
                            bound as nat,
                            sequence as nat,
                            work_id@,
                            owned_text(*doi),
                        );
                    }
                    self.push_author_rows(at, work_id, doi, &mut out);
                    bound = sequence as u64 + 1;
                },
                None => {
                    proof {
                        lemma_group_gap(
                            self@,
                            bound as nat,
                            index_limit(),
                            work_id@,
                            owned_text(*doi),
                        );
                    }
                    break ;
                },
            }
        }
        out
    }
}

} // verus!
