//! The author group of one work: the authors, affiliations and institutions
//! that its rows describe, collected row by row.

use vstd::prelude::*;
use crate::crossref::owned_text;
use crate::index::{index_of, read_index, IndexParseError};
use crate::text::{lemma_strs_push, same_text, strs};

verus! {

/// An author of a work, as plain values.
pub ghost struct AuthorModel {
    pub sequence: u32,
    pub display_name: Option<Seq<char>>,
    pub given: Option<Seq<char>>,
    pub family: Option<Seq<char>>,
    pub full: Option<Seq<char>>,
}

/// An affiliation of an author, as plain values.
pub ghost struct AffiliationModel {
    pub author: u32,
    pub index: u32,
    pub sequence: u32,
    pub raw_string: Option<Seq<char>>,
    pub institution_ids: Seq<Seq<char>>,
}

/// An institution of an author, as plain values.
pub ghost struct InstitutionModel {
    pub author: u32,
    pub index: u32,
    pub id: Option<Seq<char>>,
    pub ror: Option<Seq<char>>,
}

/// The author group of a work, as plain values: its entries in the order in
/// which the rows first named them.
pub ghost struct GroupModel {
    pub authors: Seq<AuthorModel>,
    pub affiliations: Seq<AffiliationModel>,
    pub institutions: Seq<InstitutionModel>,
}

/// An author of a work. The sequence is the index of the author in the
/// record. OpenAlex gives an author a display name; Crossref gives a given
/// and a family name, or one full name.
#[derive(Clone, Debug, Default)]
pub struct Author {
    pub display_name: Option<String>,
    pub given: Option<String>,
    pub family: Option<String>,
    pub full: Option<String>,
    pub sequence: u32,
}

/// An affiliation of an author, under the index that the rows give it. The
/// sequence is that index.
#[derive(Debug)]
pub struct TempAffiliation {
    pub author: u32,
    pub index: u32,
    pub raw_string: Option<String>,
    pub institution_ids: Vec<String>,
    pub sequence: u32,
}

/// An institution of an author, under the index that the rows give it.
#[derive(Debug)]
pub struct TempInstitution {
    pub author: u32,
    pub index: u32,
    pub id: Option<String>,
    pub ror: Option<String>,
}

/// The author group of one work.
#[derive(Debug)]
pub struct AuthorGroup {
    pub authors: Vec<Author>,
    pub affiliations: Vec<TempAffiliation>,
    pub institutions: Vec<TempInstitution>,
}

impl View for Author {
    type V = AuthorModel;

    open spec fn view(&self) -> AuthorModel {
        AuthorModel {
            sequence: self.sequence,
            display_name: owned_text(self.display_name),
            given: owned_text(self.given),
            family: owned_text(self.family),
            full: owned_text(self.full),
        }
    }
}

impl View for TempAffiliation {
    type V = AffiliationModel;

    open spec fn view(&self) -> AffiliationModel {
        AffiliationModel {
            author: self.author,
            index: self.index,
            sequence: self.sequence,
            raw_string: owned_text(self.raw_string),
            institution_ids: strs(self.institution_ids@),
        }
    }
}

impl View for TempInstitution {
    type V = InstitutionModel;

    open spec fn view(&self) -> InstitutionModel {
        InstitutionModel {
            author: self.author,
            index: self.index,
            id: owned_text(self.id),
            ror: owned_text(self.ror),
        }
    }
}

impl View for AuthorGroup {
    type V = GroupModel;

    open spec fn view(&self) -> GroupModel {
        GroupModel {
            authors: Seq::new(self.authors@.len(), |i: int| self.authors@[i]@),
            affiliations: Seq::new(self.affiliations@.len(), |i: int| self.affiliations@[i]@),
            institutions: Seq::new(self.institutions@.len(), |i: int| self.institutions@[i]@),
        }
    }
}

/// The group without entries.
pub open spec fn no_group() -> GroupModel {
    GroupModel { authors: Seq::empty(), affiliations: Seq::empty(), institutions: Seq::empty() }
}

/// The position of the author with the index `author`.
pub open spec fn author_position(authors: Seq<AuthorModel>, author: u32) -> Option<int>
    decreases authors.len(),
{
    if authors.len() == 0 {
        None
    } else {
        match author_position(authors.drop_last(), author) {
            Some(i) => Some(i),
            None => if authors.last().sequence == author {
                Some(authors.len() - 1)
            } else {
                None
            },
        }
    }
}

/// The position of the affiliation `index` of the author `author`.
pub open spec fn affiliation_position(
    affiliations: Seq<AffiliationModel>,
    author: u32,
    index: u32,
) -> Option<int>
    decreases affiliations.len(),
{
    if affiliations.len() == 0 {
        None
    } else {
        match affiliation_position(affiliations.drop_last(), author, index) {
            Some(i) => Some(i),
            None => if affiliations.last().author == author && affiliations.last().index == index {
                Some(affiliations.len() - 1)
            } else {
                None
            },
        }
    }
}

/// The position of the institution `index` of the author `author`.
pub open spec fn institution_position(
    institutions: Seq<InstitutionModel>,
    author: u32,
    index: u32,
) -> Option<int>
    decreases institutions.len(),
{
    if institutions.len() == 0 {
        None
    } else {
        match institution_position(institutions.drop_last(), author, index) {
            Some(i) => Some(i),
            None => if institutions.last().author == author && institutions.last().index
                == index {
                Some(institutions.len() - 1)
            } else {
                None
            },
        }
    }
}

/// `authors` with an author of the index `author`: a new one, without a
/// name, is added at the end where there is none yet.
pub open spec fn with_author(authors: Seq<AuthorModel>, author: u32) -> Seq<AuthorModel> {
    match author_position(authors, author) {
        Some(_) => authors,
        None => authors.push(
            AuthorModel { sequence: author, display_name: None, given: None, family: None, full: None },
        ),
    }
}

/// An author with one of the names set: the one that `slot` stands for.
pub open spec fn renamed(entry: AuthorModel, slot: Slot, name: Seq<char>) -> AuthorModel {
    match slot {
        Slot::DisplayName => AuthorModel { display_name: Some(name), ..entry },
        Slot::GivenName => AuthorModel { given: Some(name), ..entry },
        Slot::FamilyName => AuthorModel { family: Some(name), ..entry },
        Slot::FullName => AuthorModel { full: Some(name), ..entry },
        _ => entry,
    }
}

/// `authors` with a name of the author `author` set.
pub open spec fn with_name(authors: Seq<AuthorModel>, author: u32, slot: Slot, name: Seq<char>) -> Seq<
    AuthorModel,
> {
    match author_position(authors, author) {
        Some(i) => authors.update(i, renamed(authors[i], slot, name)),
        None => authors,
    }
}

/// `affiliations` with the affiliation `index` of `author`: a new one,
/// without a string and with its index as sequence, is added at the end
/// where there is none yet.
pub open spec fn with_affiliation(affiliations: Seq<AffiliationModel>, author: u32, index: u32) -> Seq<
    AffiliationModel,
> {
    match affiliation_position(affiliations, author, index) {
        Some(_) => affiliations,
        None => affiliations.push(
            AffiliationModel {
                author,
                index,
                sequence: index,
                raw_string: None,
                institution_ids: Seq::empty(),
            },
        ),
    }
}

/// `institutions` with the institution `index` of `author`: a new one,
/// without id, is added at the end where there is none yet.
pub open spec fn with_institution(institutions: Seq<InstitutionModel>, author: u32, index: u32) -> Seq<
    InstitutionModel,
> {
    match institution_position(institutions, author, index) {
        Some(_) => institutions,
        None => institutions.push(InstitutionModel { author, index, id: None, ror: None }),
    }
}

/// What a row says, once the brackets in its path were found.
pub ghost struct RowFacts {
    pub field_name: Seq<char>,
    pub value: Seq<char>,
    /// The text in the brackets of the author index, if the path has one.
    pub author: Option<Seq<char>>,
    pub affiliation: Option<Seq<char>>,
    pub institution: Option<Seq<char>>,
}

/// What the field of a row sets.
pub ghost enum Slot {
    DisplayName,
    GivenName,
    FamilyName,
    FullName,
    AffiliationString,
    InstitutionIds,
    InstitutionId,
    InstitutionRor,
    Nothing,
}

/// What the field `field_name` sets. OpenAlex rows set the display name of
/// an author, the string and the institution ids of an affiliation, and the
/// id and ROR of an institution; Crossref rows set the given, family and
/// full name of an author and the name of an affiliation.
pub open spec fn slot_of(field_name: Seq<char>) -> Slot {
    if field_name == "authorships.author.display_name"@ {
        Slot::DisplayName
    } else if field_name == "author.given"@ {
        Slot::GivenName
    } else if field_name == "author.family"@ {
        Slot::FamilyName
    } else if field_name == "author.name"@ {
        Slot::FullName
    } else if field_name == "authorships.affiliations.raw_affiliation_string"@ || field_name
        == "author.affiliation.name"@ {
        Slot::AffiliationString
    } else if field_name == "authorships.affiliations.institution_ids"@ {
        Slot::InstitutionIds
    } else if field_name == "authorships.institutions.id"@ {
        Slot::InstitutionId
    } else if field_name == "authorships.institutions.ror"@ {
        Slot::InstitutionRor
    } else {
        Slot::Nothing
    }
}

/// `group` with a name of the author `author`, who is there, set.
pub open spec fn named(group: GroupModel, author: u32, slot: Slot, name: Seq<char>) -> GroupModel {
    GroupModel { authors: with_name(group.authors, author, slot, name), ..group }
}

/// `group` with the string of the affiliation `index` of `author` set, and
/// the sequence of the affiliation set to its index.
pub open spec fn affiliation_named(group: GroupModel, author: u32, index: u32, value: Seq<char>) -> GroupModel {
    let listed = with_affiliation(group.affiliations, author, index);
    let at = affiliation_position(listed, author, index)->0;
    GroupModel {
        affiliations: listed.update(
            at,
            AffiliationModel { sequence: index, raw_string: Some(value), ..listed[at] },
        ),
        ..group
    }
}

/// `group` with one more institution id for the affiliation `index` of
/// `author`.
pub open spec fn affiliation_linked(group: GroupModel, author: u32, index: u32, value: Seq<char>) -> GroupModel {
    let listed = with_affiliation(group.affiliations, author, index);
    let at = affiliation_position(listed, author, index)->0;
    GroupModel {
        affiliations: listed.update(
            at,
            AffiliationModel {
                institution_ids: listed[at].institution_ids.push(value),
                ..listed[at]
            },
        ),
        ..group
    }
}

/// `group` with the id of the institution `index` of `author` set.
pub open spec fn institution_identified(
    group: GroupModel,
    author: u32,
    index: u32,
    value: Seq<char>,
) -> GroupModel {
    let listed = with_institution(group.institutions, author, index);
    let at = institution_position(listed, author, index)->0;
    GroupModel {
        institutions: listed.update(at, InstitutionModel { id: Some(value), ..listed[at] }),
        ..group
    }
}

/// `group` with the ROR of the institution `index` of `author` set.
pub open spec fn institution_registered(
    group: GroupModel,
    author: u32,
    index: u32,
    value: Seq<char>,
) -> GroupModel {
    let listed = with_institution(group.institutions, author, index);
    let at = institution_position(listed, author, index)->0;
    GroupModel {
        institutions: listed.update(at, InstitutionModel { ror: Some(value), ..listed[at] }),
        ..group
    }
}

/// What a row whose author is `author` sets in `group`, which has that
/// author: what its field names, under the index found for it. A row for an
/// affiliation or institution whose path lacks that index sets nothing.
pub open spec fn slot_set(group: GroupModel, author: u32, row: RowFacts) -> Result<
    GroupModel,
    Seq<char>,
> {
    match slot_of(row.field_name) {
        Slot::DisplayName => Ok(named(group, author, Slot::DisplayName, row.value)),
        Slot::GivenName => Ok(named(group, author, Slot::GivenName, row.value)),
        Slot::FamilyName => Ok(named(group, author, Slot::FamilyName, row.value)),
        Slot::FullName => Ok(named(group, author, Slot::FullName, row.value)),
        Slot::AffiliationString => match index_of(row.affiliation) {
            Err(text) => Err(text),
            Ok(None) => Ok(group),
            Ok(Some(index)) => Ok(affiliation_named(group, author, index, row.value)),
        },
        Slot::InstitutionIds => match index_of(row.affiliation) {
            Err(text) => Err(text),
            Ok(None) => Ok(group),
            Ok(Some(index)) => Ok(affiliation_linked(group, author, index, row.value)),
        },
        Slot::InstitutionId => match index_of(row.institution) {
            Err(text) => Err(text),
            Ok(None) => Ok(group),
            Ok(Some(index)) => Ok(institution_identified(group, author, index, row.value)),
        },
        Slot::InstitutionRor => match index_of(row.institution) {
            Err(text) => Err(text),
            Ok(None) => Ok(group),
            Ok(Some(index)) => Ok(institution_registered(group, author, index, row.value)),
        },
        Slot::Nothing => Ok(group),
    }
}

/// The group after a row, or the text of a bracketed index that is no
/// number. A row without an author index changes nothing. Any other row
/// makes sure that its author is there, and then sets what its field names:
/// the name of the author; the string of an affiliation, whose sequence
/// becomes its index; one more institution id of an affiliation; or the id
/// or the ROR of an institution.
pub open spec fn after_row(group: GroupModel, row: RowFacts) -> Result<GroupModel, Seq<char>> {
    match index_of(row.author) {
        Err(text) => Err(text),
        Ok(None) => Ok(group),
        Ok(Some(author)) => slot_set(
            GroupModel { authors: with_author(group.authors, author), ..group },
            author,
            row,
        ),
    }
}

/// Whether the affiliations of a group are tidy: the sequence of each is
/// its index, and no two have the same author and index.
pub open spec fn tidy(group: GroupModel) -> bool {
    &&& forall|i: int|
        0 <= i < group.affiliations.len() ==> (#[trigger] group.affiliations[i]).sequence
            == group.affiliations[i].index
    &&& forall|i: int, j: int|
        0 <= i < j < group.affiliations.len() ==> !((#[trigger] group.affiliations[i]).author == (
        #[trigger] group.affiliations[j]).author && group.affiliations[i].index
            == group.affiliations[j].index)
}

proof fn lemma_with_affiliation_tidy(group: GroupModel, author: u32, index: u32)
    requires
        tidy(group),
    ensures
        tidy(
            GroupModel { affiliations: with_affiliation(group.affiliations, author, index), ..group },
        ),
        affiliation_position(with_affiliation(group.affiliations, author, index), author, index)
            is Some,
{
    let listed = with_affiliation(group.affiliations, author, index);
    lemma_affiliation_position(group.affiliations, author, index);
    lemma_affiliation_position(listed, author, index);
    if affiliation_position(group.affiliations, author, index) is None {
        let last = group.affiliations.len() as int;
        assert(listed[last].author == author && listed[last].index == index);
        assert forall|i: int| 0 <= i < listed.len() implies (#[trigger] listed[i]).sequence
            == listed[i].index by {
            if i < last {
                assert(listed[i] == group.affiliations[i]);
            }
        }
        assert forall|i: int, j: int| 0 <= i < j < listed.len() implies !((#[trigger] listed[i]).author
            == (#[trigger] listed[j]).author && listed[i].index == listed[j].index) by {
            assert(listed[i] == group.affiliations[i]);
            if j < last {
                assert(listed[j] == group.affiliations[j]);
            }
        }
    }
}

proof fn lemma_update_tidy(group: GroupModel, at: int, changed: AffiliationModel)
    requires
        tidy(group),
        0 <= at < group.affiliations.len(),
        changed.author == group.affiliations[at].author,
        changed.index == group.affiliations[at].index,
        changed.sequence == changed.index,
    ensures
        tidy(GroupModel { affiliations: group.affiliations.update(at, changed), ..group }),
{
    let after = group.affiliations.update(at, changed);
    assert forall|i: int, j: int| 0 <= i < j < after.len() implies !((#[trigger] after[i]).author == (
    #[trigger] after[j]).author && after[i].index == after[j].index) by {
        assert(after[i].author == group.affiliations[i].author && after[i].index
            == group.affiliations[i].index);
        assert(after[j].author == group.affiliations[j].author && after[j].index
            == group.affiliations[j].index);
    }
}

/// A row leaves a tidy group tidy.
pub proof fn lemma_after_row_tidy(group: GroupModel, row: RowFacts)
    requires
        tidy(group),
    ensures
        after_row(group, row) matches Ok(after) ==> tidy(after),
{
    match index_of(row.author) {
        Ok(Some(author)) => {
            let known = GroupModel { authors: with_author(group.authors, author), ..group };
            assert(tidy(known));
            match slot_of(row.field_name) {
                Slot::AffiliationString => {
                    match index_of(row.affiliation) {
                        Ok(Some(index)) => {
                            lemma_with_affiliation_tidy(known, author, index);
                            let listed = with_affiliation(known.affiliations, author, index);
                            let at = affiliation_position(listed, author, index)->0;
                            lemma_affiliation_position(listed, author, index);
                            lemma_update_tidy(
                                GroupModel { affiliations: listed, ..known },
                                at,
                                AffiliationModel {
                                    sequence: index,
                                    raw_string: Some(row.value),
                                    ..listed[at]
                                },
                            );
                        },
                        _ => {},
                    }
                },
                Slot::InstitutionIds => {
                    match index_of(row.affiliation) {
                        Ok(Some(index)) => {
                            lemma_with_affiliation_tidy(known, author, index);
                            let listed = with_affiliation(known.affiliations, author, index);
                            let at = affiliation_position(listed, author, index)->0;
                            lemma_affiliation_position(listed, author, index);
                            lemma_update_tidy(
                                GroupModel { affiliations: listed, ..known },
                                at,
                                AffiliationModel {
                                    institution_ids: listed[at].institution_ids.push(row.value),
                                    ..listed[at]
                                },
                            );
                        },
                        _ => {},
                    }
                },
                _ => {},
            }
        },
        _ => {},
    }
}

/// The rows of a work leave a tidy group, starting from none.
pub proof fn lemma_after_rows_tidy(rows: Seq<RowFacts>)
    ensures
        after_rows(no_group(), rows) matches Ok(after) ==> tidy(after),
    decreases rows.len(),
{
    if rows.len() > 0 {
        lemma_after_rows_tidy(rows.drop_last());
        match after_rows(no_group(), rows.drop_last()) {
            Ok(before) => {
                lemma_after_row_tidy(before, rows.last());
            },
            Err(_) => {},
        }
    }
}

/// The group after all of `rows`, in order; the first bracketed index that
/// is no number ends it.
pub open spec fn after_rows(group: GroupModel, rows: Seq<RowFacts>) -> Result<GroupModel, Seq<char>>
    decreases rows.len(),
{
    if rows.len() == 0 {
        Ok(group)
    } else {
        match after_rows(group, rows.drop_last()) {
            Ok(before) => after_row(before, rows.last()),
            Err(text) => Err(text),
        }
    }
}

/// `author_position` finds the first author with the index, and nothing
/// where there is none.
pub proof fn lemma_author_position(authors: Seq<AuthorModel>, author: u32)
    ensures
        match author_position(authors, author) {
            Some(i) => 0 <= i < authors.len() && authors[i].sequence == author && forall|k: int|
                0 <= k < i ==> (#[trigger] authors[k]).sequence != author,
            None => forall|k: int|
                0 <= k < authors.len() ==> (#[trigger] authors[k]).sequence != author,
        },
    decreases authors.len(),
{
    if authors.len() > 0 {
        let front = authors.drop_last();
        lemma_author_position(front, author);
        assert forall|k: int| 0 <= k < front.len() implies #[trigger] front[k] == authors[k] by {}
        match author_position(front, author) {
            Some(i) => {
                assert(front[i] == authors[i]);
                assert forall|k: int| 0 <= k < i implies (#[trigger] authors[k]).sequence
                    != author by {
                    assert(front[k] == authors[k]);
                }
            },
            None => {
                assert forall|k: int| 0 <= k < front.len() implies (#[trigger] authors[k]).sequence
                    != author by {
                    assert(front[k] == authors[k]);
                }
            },
        }
    }
}

/// `affiliation_position` finds the first affiliation with the author and
/// index, and nothing where there is none.
pub proof fn lemma_affiliation_position(affiliations: Seq<AffiliationModel>, author: u32, index: u32)
    ensures
        match affiliation_position(affiliations, author, index) {
            Some(i) => 0 <= i < affiliations.len() && affiliations[i].author == author
                && affiliations[i].index == index && forall|k: int|
                0 <= k < i ==> !((#[trigger] affiliations[k]).author == author
                    && affiliations[k].index == index),
            None => forall|k: int|
                0 <= k < affiliations.len() ==> !((#[trigger] affiliations[k]).author == author
                    && affiliations[k].index == index),
        },
    decreases affiliations.len(),
{
    if affiliations.len() > 0 {
        let front = affiliations.drop_last();
        lemma_affiliation_position(front, author, index);
        match affiliation_position(front, author, index) {
            Some(i) => {
                assert(front[i] == affiliations[i]);
                assert forall|k: int| 0 <= k < i implies !((#[trigger] affiliations[k]).author
                    == author && affiliations[k].index == index) by {
                    assert(front[k] == affiliations[k]);
                }
            },
            None => {
                assert forall|k: int| 0 <= k < front.len() implies !((#[trigger] affiliations[k]).author
                    == author && affiliations[k].index == index) by {
                    assert(front[k] == affiliations[k]);
                }
            },
        }
    }
}

/// `institution_position` finds the first institution with the author and
/// index, and nothing where there is none.
pub proof fn lemma_institution_position(institutions: Seq<InstitutionModel>, author: u32, index: u32)
    ensures
        match institution_position(institutions, author, index) {
            Some(i) => 0 <= i < institutions.len() && institutions[i].author == author
                && institutions[i].index == index && forall|k: int|
                0 <= k < i ==> !((#[trigger] institutions[k]).author == author
                    && institutions[k].index == index),
            None => forall|k: int|
                0 <= k < institutions.len() ==> !((#[trigger] institutions[k]).author == author
                    && institutions[k].index == index),
        },
    decreases institutions.len(),
{
    if institutions.len() > 0 {
        let front = institutions.drop_last();
        lemma_institution_position(front, author, index);
        match institution_position(front, author, index) {
            Some(i) => {
                assert(front[i] == institutions[i]);
                assert forall|k: int| 0 <= k < i implies !((#[trigger] institutions[k]).author
                    == author && institutions[k].index == index) by {
                    assert(front[k] == institutions[k]);
                }
            },
            None => {
                assert forall|k: int| 0 <= k < front.len() implies !((#[trigger] institutions[k]).author
                    == author && institutions[k].index == index) by {
                    assert(front[k] == institutions[k]);
                }
            },
        }
    }
}

/// What the field of a row sets.
#[derive(Clone, Copy, Debug, PartialEq, Eq, Structural)]
pub enum FieldSlot {
    DisplayName,
    GivenName,
    FamilyName,
    FullName,
    AffiliationString,
    InstitutionIds,
    InstitutionId,
    InstitutionRor,
    Nothing,
}

/// The slot as a plain value.
pub open spec fn slot_model(slot: FieldSlot) -> Slot {
    match slot {
        FieldSlot::DisplayName => Slot::DisplayName,
        FieldSlot::GivenName => Slot::GivenName,
        FieldSlot::FamilyName => Slot::FamilyName,
        FieldSlot::FullName => Slot::FullName,
        FieldSlot::AffiliationString => Slot::AffiliationString,
        FieldSlot::InstitutionIds => Slot::InstitutionIds,
        FieldSlot::InstitutionId => Slot::InstitutionId,
        FieldSlot::InstitutionRor => Slot::InstitutionRor,
        FieldSlot::Nothing => Slot::Nothing,
    }
}

/// What the field `field_name` sets.
pub fn field_slot(field_name: &str) -> (slot: FieldSlot)
    ensures
        slot_model(slot) == slot_of(field_name@),
{
    if same_text(field_name, "authorships.author.display_name") {
        FieldSlot::DisplayName
    } else if same_text(field_name, "author.given") {
        FieldSlot::GivenName
    } else if same_text(field_name, "author.family") {
        FieldSlot::FamilyName
    } else if same_text(field_name, "author.name") {
        FieldSlot::FullName
    } else if same_text(field_name, "authorships.affiliations.raw_affiliation_string")
        || same_text(field_name, "author.affiliation.name") {
        FieldSlot::AffiliationString
    } else if same_text(field_name, "authorships.affiliations.institution_ids") {
        FieldSlot::InstitutionIds
    } else if same_text(field_name, "authorships.institutions.id") {
        FieldSlot::InstitutionId
    } else if same_text(field_name, "authorships.institutions.ror") {
        FieldSlot::InstitutionRor
    } else {
        FieldSlot::Nothing
    }
}

impl AuthorGroup {
    /// The group without entries.
    pub fn new() -> (group: AuthorGroup)
        ensures
            group@ == no_group(),
    {
        let group = AuthorGroup {
            authors: Vec::new(),
            affiliations: Vec::new(),
            institutions: Vec::new(),
        };
        assert(group@.authors =~= Seq::empty());
        assert(group@.affiliations =~= Seq::empty());
        assert(group@.institutions =~= Seq::empty());
        group
    }

    fn find_author(&self, author: u32) -> (r: Option<usize>)
        ensures
            match r {
                Some(i) => author_position(self@.authors, author) == Some(i as int) && i
                    < self.authors@.len(),
                None => author_position(self@.authors, author) is None,
            },
    {
        proof {
            lemma_author_position(self@.authors, author);
        }
        let mut i: usize = 0;
        while i < self.authors.len()
            invariant
                i <= self.authors.len(),
                forall|k: int| 0 <= k < i ==> (#[trigger] self@.authors[k]).sequence != author,
            decreases self.authors.len() - i,
        {
            if self.authors[i].sequence == author {
                proof {
                    assert(self@.authors[i as int].sequence == author);
                    lemma_author_position(self@.authors, author);
                }
                return Some(i);
            }
            i += 1;
        }
        proof {
            lemma_author_position(self@.authors, author);
        }
        None
    }

    fn find_affiliation(&self, author: u32, index: u32) -> (r: Option<usize>)
        ensures
            match r {
                Some(i) => affiliation_position(self@.affiliations, author, index) == Some(
                    i as int,
                ) && i < self.affiliations@.len(),
                None => affiliation_position(self@.affiliations, author, index) is None,
            },
    {
        proof {
            lemma_affiliation_position(self@.affiliations, author, index);
        }
        let mut i: usize = 0;
        while i < self.affiliations.len()
            invariant
                i <= self.affiliations.len(),
                forall|k: int|
                    0 <= k < i ==> !((#[trigger] self@.affiliations[k]).author == author
                        && self@.affiliations[k].index == index),
            decreases self.affiliations.len() - i,
        {
            if self.affiliations[i].author == author && self.affiliations[i].index == index {
                proof {
                    assert(self@.affiliations[i as int].author == author);
                    lemma_affiliation_position(self@.affiliations, author, index);
                }
                return Some(i);
            }
            i += 1;
        }
        proof {
            lemma_affiliation_position(self@.affiliations, author, index);
        }
        None
    }

    fn find_institution(&self, author: u32, index: u32) -> (r: Option<usize>)
        ensures
            match r {
                Some(i) => institution_position(self@.institutions, author, index) == Some(
                    i as int,
                ) && i < self.institutions@.len(),
                None => institution_position(self@.institutions, author, index) is None,
            },
    {
        proof {
            lemma_institution_position(self@.institutions, author, index);
        }
        let mut i: usize = 0;
        while i < self.institutions.len()
            invariant
                i <= self.institutions.len(),
                forall|k: int|
                    0 <= k < i ==> !((#[trigger] self@.institutions[k]).author == author
                        && self@.institutions[k].index == index),
            decreases self.institutions.len() - i,
        {
            if self.institutions[i].author == author && self.institutions[i].index == index {
                proof {
                    assert(self@.institutions[i as int].author == author);
                    lemma_institution_position(self@.institutions, author, index);
                }
                return Some(i);
            }
            i += 1;
        }
        proof {
            lemma_institution_position(self@.institutions, author, index);
        }
        None
    }

    /// Makes sure that the author `author` is there; says where.
    fn ensure_author(&mut self, author: u32) -> (at: usize)
        ensures
            final(self)@ == (GroupModel {
                authors: with_author(old(self)@.authors, author),
                ..old(self)@
            }),
            author_position(final(self)@.authors, author) == Some(at as int),
            at < final(self).authors@.len(),
    {
        match self.find_author(author) {
            Some(i) => {
                assert(self@.authors =~= with_author(old(self)@.authors, author));
                i
            },
            None => {
                self.authors.push(
                    Author {
                        display_name: None,
                        given: None,
                        family: None,
                        full: None,
                        sequence: author,
                    },
                );
                proof {
                    assert(self@.authors =~= with_author(old(self)@.authors, author));
                    assert(self@.affiliations =~= old(self)@.affiliations);
                    assert(self@.institutions =~= old(self)@.institutions);
                    lemma_author_position(self@.authors, author);
                    lemma_author_position(old(self)@.authors, author);
                    let last = self.authors@.len() - 1;
                    assert(self@.authors[last].sequence == author);
                    assert forall|k: int| 0 <= k < last implies (#[trigger] self@.authors[k]).sequence
                        != author by {
                        assert(self@.authors[k] == old(self)@.authors[k]);
                    }
                }
                self.authors.len() - 1
            },
        }
    }

    /// Makes sure that the affiliation `index` of `author` is there; says
    /// where.
    fn ensure_affiliation(&mut self, author: u32, index: u32) -> (at: usize)
        ensures
            final(self)@ == (GroupModel {
                affiliations: with_affiliation(old(self)@.affiliations, author, index),
                ..old(self)@
            }),
            affiliation_position(final(self)@.affiliations, author, index) == Some(at as int),
            at < final(self).affiliations@.len(),
    {
        match self.find_affiliation(author, index) {
            Some(i) => {
                assert(self@.affiliations =~= with_affiliation(
                    old(self)@.affiliations,
                    author,
                    index,
                ));
                i
            },
            None => {
                self.affiliations.push(
                    TempAffiliation {
                        author,
                        index,
                        raw_string: None,
                        institution_ids: Vec::new(),
                        sequence: index,
                    },
                );
                proof {
                    let last = self.affiliations@.len() - 1;
                    assert(strs(self.affiliations@[last].institution_ids@) =~= Seq::empty());
                    assert(self@.affiliations =~= with_affiliation(
                        old(self)@.affiliations,
                        author,
                        index,
                    ));
                    assert(self@.authors =~= old(self)@.authors);
                    assert(self@.institutions =~= old(self)@.institutions);
                    lemma_affiliation_position(self@.affiliations, author, index);
                    lemma_affiliation_position(old(self)@.affiliations, author, index);
                    assert(self@.affiliations[last].author == author);
                    assert forall|k: int| 0 <= k < last implies !((#[trigger] self@.affiliations[k]).author
                        == author && self@.affiliations[k].index == index) by {
                        assert(self@.affiliations[k] == old(self)@.affiliations[k]);
                    }
                }
                self.affiliations.len() - 1
            },
        }
    }

    /// Makes sure that the institution `index` of `author` is there; says
    /// where.
    fn ensure_institution(&mut self, author: u32, index: u32) -> (at: usize)
        ensures
            final(self)@ == (GroupModel {
                institutions: with_institution(old(self)@.institutions, author, index),
                ..old(self)@
            }),
            institution_position(final(self)@.institutions, author, index) == Some(at as int),
            at < final(self).institutions@.len(),
    {
        match self.find_institution(author, index) {
            Some(i) => {
                assert(self@.institutions =~= with_institution(
                    old(self)@.institutions,
                    author,
                    index,
                ));
                i
            },
            None => {
                self.institutions.push(TempInstitution { author, index, id: None, ror: None });
                proof {
                    let last = self.institutions@.len() - 1;
                    assert(self@.institutions =~= with_institution(
                        old(self)@.institutions,
                        author,
                        index,
                    ));
                    assert(self@.authors =~= old(self)@.authors);
                    assert(self@.affiliations =~= old(self)@.affiliations);
                    lemma_institution_position(self@.institutions, author, index);
                    lemma_institution_position(old(self)@.institutions, author, index);
                    assert(self@.institutions[last].author == author);
                    assert forall|k: int| 0 <= k < last implies !((#[trigger] self@.institutions[k]).author
                        == author && self@.institutions[k].index == index) by {
                        assert(self@.institutions[k] == old(self)@.institutions[k]);
                    }
                }
                self.institutions.len() - 1
            },
        }
    }

    /// Sets one of the names of the author `author`, who is there.
    fn set_name(&mut self, author: u32, slot: FieldSlot, value: &str)
        requires
            author_position(old(self)@.authors, author) is Some,
        ensures
            final(self)@ == named(old(self)@, author, slot_model(slot), value@),
    {
        proof {
            lemma_author_position(self@.authors, author);
        }
        match self.find_author(author) {
            Some(at) => {
                let mut entry = self.authors.remove(at);
                match slot {
                    FieldSlot::DisplayName => {
                        entry.display_name = Some(value.to_owned());
                    },
                    FieldSlot::GivenName => {
                        entry.given = Some(value.to_owned());
                    },
                    FieldSlot::FamilyName => {
                        entry.family = Some(value.to_owned());
                    },
                    FieldSlot::FullName => {
                        entry.full = Some(value.to_owned());
                    },
                    _ => {},
                }
                self.authors.insert(at, entry);
                proof {
                    assert(self@.authors =~= with_name(
                        old(self)@.authors,
                        author,
                        slot_model(slot),
                        value@,
                    ));
                    assert(self@.affiliations =~= old(self)@.affiliations);
                    assert(self@.institutions =~= old(self)@.institutions);
                }
            },
            None => {},
        }
    }

    /// Sets the string of the affiliation `index` of `author`, and its
    /// sequence.
    fn set_affiliation_string(&mut self, author: u32, index: u32, value: &str)
        ensures
            final(self)@ == affiliation_named(old(self)@, author, index, value@),
    {
        let place = self.ensure_affiliation(author, index);
        let ghost listed = self@.affiliations;
        let mut entry = self.affiliations.remove(place);
        entry.raw_string = Some(value.to_owned());
        entry.sequence = index;
        self.affiliations.insert(place, entry);
        proof {
            assert(self@.affiliations =~= listed.update(
                place as int,
                AffiliationModel {
                    sequence: index,
                    raw_string: Some(value@),
                    ..listed[place as int]
                },
            ));
            assert(self@.authors =~= old(self)@.authors);
            assert(self@.institutions =~= old(self)@.institutions);
        }
    }

    /// Adds an institution id to the affiliation `index` of `author`.
    fn add_institution_id(&mut self, author: u32, index: u32, value: &str)
        ensures
            final(self)@ == affiliation_linked(old(self)@, author, index, value@),
    {
        let place = self.ensure_affiliation(author, index);
        let ghost listed = self@.affiliations;
        let mut entry = self.affiliations.remove(place);
        let id = value.to_owned();
        proof {
            lemma_strs_push(entry.institution_ids@, id);
        }
        entry.institution_ids.push(id);
        self.affiliations.insert(place, entry);
        proof {
            assert(self@.affiliations =~= listed.update(
                place as int,
                AffiliationModel {
                    institution_ids: listed[place as int].institution_ids.push(value@),
                    ..listed[place as int]
                },
            ));
            assert(self@.authors =~= old(self)@.authors);
            assert(self@.institutions =~= old(self)@.institutions);
        }
    }

    /// Sets the id of the institution `index` of `author`.
    fn set_institution_id(&mut self, author: u32, index: u32, value: &str)
        ensures
            final(self)@ == institution_identified(old(self)@, author, index, value@),
    {
        let place = self.ensure_institution(author, index);
        let ghost listed = self@.institutions;
        let mut entry = self.institutions.remove(place);
        entry.id = Some(value.to_owned());
        self.institutions.insert(place, entry);
        proof {
            assert(self@.institutions =~= listed.update(
                place as int,
                InstitutionModel { id: Some(value@), ..listed[place as int] },
            ));
            assert(self@.authors =~= old(self)@.authors);
            assert(self@.affiliations =~= old(self)@.affiliations);
        }
    }

    /// Sets the ROR of the institution `index` of `author`.
    fn set_institution_ror(&mut self, author: u32, index: u32, value: &str)
        ensures
            final(self)@ == institution_registered(old(self)@, author, index, value@),
    {
        let place = self.ensure_institution(author, index);
        let ghost listed = self@.institutions;
        let mut entry = self.institutions.remove(place);
        entry.ror = Some(value.to_owned());
        self.institutions.insert(place, entry);
        proof {
            assert(self@.institutions =~= listed.update(
                place as int,
                InstitutionModel { ror: Some(value@), ..listed[place as int] },
            ));
            assert(self@.authors =~= old(self)@.authors);
            assert(self@.affiliations =~= old(self)@.affiliations);
        }
    }

    /// Sets what the field of a row names, for a row of the author
    /// `author`, who is there.
    fn set_slot(
        &mut self,
        author: u32,
        field_name: &str,
        value: &str,
        affiliation: Option<String>,
        institution: Option<String>,
    ) -> (r: Result<(), IndexParseError>)
        requires
            author_position(old(self)@.authors, author) is Some,
        ensures
            match r {
                Ok(()) => slot_set(
                    old(self)@,
                    author,
                    RowFacts {
                        field_name: field_name@,
                        value: value@,
                        author: None,
                        affiliation: owned_text(affiliation),
                        institution: owned_text(institution),
                    },
                ) == Ok::<GroupModel, Seq<char>>(final(self)@),
                Err(e) => slot_set(
                    old(self)@,
                    author,
                    RowFacts {
                        field_name: field_name@,
                        value: value@,
                        author: None,
                        affiliation: owned_text(affiliation),
                        institution: owned_text(institution),
                    },
                ) == Err::<GroupModel, Seq<char>>(e.text@),
            },
    {
        match field_slot(field_name) {
            FieldSlot::DisplayName => {
                self.set_name(author, FieldSlot::DisplayName, value);
                Ok(())
            },
            FieldSlot::GivenName => {
                self.set_name(author, FieldSlot::GivenName, value);
                Ok(())
            },
            FieldSlot::FamilyName => {
                self.set_name(author, FieldSlot::FamilyName, value);
                Ok(())
            },
            FieldSlot::FullName => {
                self.set_name(author, FieldSlot::FullName, value);
                Ok(())
            },
            FieldSlot::AffiliationString => match read_index(affiliation) {
                Err(e) => Err(e),
                Ok(None) => Ok(()),
                Ok(Some(index)) => {
                    self.set_affiliation_string(author, index, value);
                    Ok(())
                },
            },
            FieldSlot::InstitutionIds => match read_index(affiliation) {
                Err(e) => Err(e),
                Ok(None) => Ok(()),
                Ok(Some(index)) => {
                    self.add_institution_id(author, index, value);
                    Ok(())
                },
            },
            FieldSlot::InstitutionId => match read_index(institution) {
                Err(e) => Err(e),
                Ok(None) => Ok(()),
                Ok(Some(index)) => {
                    self.set_institution_id(author, index, value);
                    Ok(())
                },
            },
            FieldSlot::InstitutionRor => match read_index(institution) {
                Err(e) => Err(e),
                Ok(None) => Ok(()),
                Ok(Some(index)) => {
                    self.set_institution_ror(author, index, value);
                    Ok(())
                },
            },
            FieldSlot::Nothing => Ok(()),
        }
    }

    /// Takes in one row: its field name and value, and the texts found
    /// between the brackets of the author, affiliation and institution
    /// index of its path. An index that is no number is handed back; the
    /// group cannot be used further then.
    pub fn apply_row(
        &mut self,
        field_name: &str,
        value: &str,
        author: Option<String>,
        affiliation: Option<String>,
        institution: Option<String>,
    ) -> (r: Result<(), IndexParseError>)
        ensures
            match r {
                Ok(()) => after_row(
                    old(self)@,
                    RowFacts {
                        field_name: field_name@,
                        value: value@,
                        author: owned_text(author),
                        affiliation: owned_text(affiliation),
                        institution: owned_text(institution),
                    },
                ) == Ok::<GroupModel, Seq<char>>(final(self)@),
                Err(e) => after_row(
                    old(self)@,
                    RowFacts {
                        field_name: field_name@,
                        value: value@,
                        author: owned_text(author),
                        affiliation: owned_text(affiliation),
                        institution: owned_text(institution),
                    },
                ) == Err::<GroupModel, Seq<char>>(e.text@),
            },
    {
        let author_index = match read_index(author) {
            Err(e) => {
                return Err(e);
            },
            Ok(None) => {
                return Ok(());
            },
            Ok(Some(a)) => a,
        };
        self.ensure_author(author_index);
        self.set_slot(author_index, field_name, value, affiliation, institution)
    }
}

} // verus!
