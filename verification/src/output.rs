//! The tabular output of the extraction stage: CSV rows with a fixed header,
//! in one file or in one file per grouping key.

use vstd::prelude::*;
use crate::crossref::owned_text;
use crate::processor::{rows, Dataset, FieldData, FieldRow};
use crate::text::strs;

verus! {

/// The bytes that `csv::Writer::write_record` writes for one record with
/// the fields `fields`, under the writer's default settings; `None` where
/// the crate reports an error.
pub uninterp spec fn csv_record(fields: Seq<Seq<char>>) -> Option<Seq<u8>>;

/// The bytes of a byte vector that may be missing.
pub open spec fn bytes_of(bytes: Option<Vec<u8>>) -> Option<Seq<u8>> {
    match bytes {
        Some(b) => Some(b@),
        None => None,
    }
}

/// Writes one record with `csv::Writer::write_record` into memory and takes
/// the bytes with `csv::Writer::into_inner`. The result is what the crate
/// writes for these fields, and `None` where it reports an error.
#[verifier::external_body]
pub(crate) fn encode_record(fields: &Vec<String>) -> (r: Option<Vec<u8>>)
    ensures
        bytes_of(r) == csv_record(strs(fields@)),
{
    let mut writer = csv::Writer::from_writer(Vec::new());
    match writer.write_record(fields) {
        Ok(()) => writer.into_inner().ok(),
        Err(_) => None,
    }
}

/// The column names of the extraction output.
pub open spec fn header_of(dataset: Dataset) -> Seq<Seq<char>> {
    match dataset {
        Dataset::Crossref => seq![
            "doi"@,
            "field_name"@,
            "subfield_path"@,
            "value"@,
            "member_id"@,
            "doi_prefix"@,
        ],
        Dataset::OpenAlex => seq![
            "work_id"@,
            "doi"@,
            "field_name"@,
            "subfield_path"@,
            "value"@,
            "source_id"@,
            "doi_prefix"@,
            "source_file_path"@,
        ],
    }
}

/// `text`, or the empty text where there is none.
pub open spec fn shown(text: Option<Seq<char>>) -> Seq<char> {
    match text {
        Some(t) => t,
        None => Seq::empty(),
    }
}

/// The fields of the output row for `row`, in the order of the header. An
/// id that the record lacks is an empty field.
pub open spec fn columns_of(dataset: Dataset, row: FieldRow) -> Seq<Seq<char>> {
    match dataset {
        Dataset::Crossref => seq![
            row.record_id,
            row.field_name,
            row.subfield_path,
            row.value,
            shown(row.group_key),
            row.doi_prefix,
        ],
        Dataset::OpenAlex => seq![
            row.record_id,
            shown(row.doi),
            row.field_name,
            row.subfield_path,
            row.value,
            shown(row.group_key),
            row.doi_prefix,
            row.source_file_path,
        ],
    }
}

/// The column names of the extraction output.
pub fn header(dataset: Dataset) -> (names: Vec<String>)
    ensures
        strs(names@) == header_of(dataset),
{
    let mut names: Vec<String> = Vec::new();
    match dataset {
        Dataset::Crossref => {
            names.push("doi".to_owned());
            names.push("field_name".to_owned());
            names.push("subfield_path".to_owned());
            names.push("value".to_owned());
            names.push("member_id".to_owned());
            names.push("doi_prefix".to_owned());
        },
        Dataset::OpenAlex => {
            names.push("work_id".to_owned());
            names.push("doi".to_owned());
            names.push("field_name".to_owned());
            names.push("subfield_path".to_owned());
            names.push("value".to_owned());
            names.push("source_id".to_owned());
            names.push("doi_prefix".to_owned());
            names.push("source_file_path".to_owned());
        },
    }
    assert(strs(names@) =~= header_of(dataset));
    names
}

fn shown_text(text: &Option<String>) -> (out: String)
    ensures
        out@ == shown(owned_text(*text)),
{
    match text {
        Some(t) => t.clone(),
        None => String::new(),
    }
}

/// The fields of the output row for `row`, in the order of the header.
pub fn columns(dataset: Dataset, row: &FieldData) -> (fields: Vec<String>)
    ensures
        strs(fields@) == columns_of(dataset, row@),
{
    let mut fields: Vec<String> = Vec::new();
    match dataset {
        Dataset::Crossref => {
            fields.push(row.record_id.clone());
            fields.push(row.field_name.clone());
            fields.push(row.subfield_path.clone());
            fields.push(row.value.clone());
            fields.push(shown_text(&row.group_key));
            fields.push(row.doi_prefix.clone());
        },
        Dataset::OpenAlex => {
            fields.push(row.record_id.clone());
            fields.push(shown_text(&row.doi));
            fields.push(row.field_name.clone());
            fields.push(row.subfield_path.clone());
            fields.push(row.value.clone());
            fields.push(shown_text(&row.group_key));
            fields.push(row.doi_prefix.clone());
            fields.push(row.source_file_path.clone());
        },
    }
    assert(strs(fields@) =~= columns_of(dataset, row@));
    fields
}

/// The CSV text of records, one after the other; `None` where one of them
/// cannot be written.
pub open spec fn csv_text(records: Seq<Seq<Seq<char>>>) -> Option<Seq<u8>>
    decreases records.len(),
{
    if records.len() == 0 {
        Some(Seq::empty())
    } else {
        match csv_text(records.drop_last()) {
            Some(before) => match csv_record(records.last()) {
                Some(line) => Some(before + line),
                None => None,
            },
            None => None,
        }
    }
}

/// Records of which the first `n` cannot be written cannot be written.
pub proof fn lemma_csv_text_fails(records: Seq<Seq<Seq<char>>>, n: int)
    requires
        0 <= n <= records.len(),
        csv_text(records.take(n)) is None,
    ensures
        csv_text(records) is None,
    decreases records.len() - n,
{
    if n < records.len() {
        assert(records.take(n + 1).drop_last() =~= records.take(n));
        lemma_csv_text_fails(records, n + 1);
    } else {
        assert(records.take(n) =~= records);
    }
}

/// The output records of rows.
pub open spec fn records_of(dataset: Dataset, batch: Seq<FieldRow>) -> Seq<Seq<Seq<char>>> {
    Seq::new(batch.len(), |i: int| columns_of(dataset, batch[i]))
}

/// Appends the bytes of an encoded record to `out`. Says whether there were
/// any: a record that could not be encoded leaves `out` as it is.
pub fn append_encoded(out: &mut Vec<u8>, encoded: Option<Vec<u8>>) -> (ok: bool)
    ensures
        ok == encoded is Some,
        match encoded {
            Some(bytes) => final(out)@ == old(out)@ + bytes@,
            None => final(out)@ == old(out)@,
        },
{
    match encoded {
        Some(mut bytes) => {
            out.append(&mut bytes);
            true
        },
        None => false,
    }
}

/// The header line of the extraction output as CSV text: the record of
/// the column names. `None` where the record cannot be written.
pub fn encode_header(dataset: Dataset) -> (r: Option<Vec<u8>>)
    ensures
        bytes_of(r) == csv_record(header_of(dataset)),
{
    encode_record(&header(dataset))
}

/// The rows of a batch as CSV text, in order. `None` where a row could not
/// be encoded: the batch is then lost as a whole.
pub fn encode_batch(dataset: Dataset, batch: &Vec<FieldData>) -> (r: Option<Vec<u8>>)
    ensures
        bytes_of(r) == csv_text(records_of(dataset, rows(batch@))),
{
    let ghost records = records_of(dataset, rows(batch@));
    let mut out: Vec<u8> = Vec::new();
    let mut i: usize = 0;
    while i < batch.len()
        invariant
            i <= batch.len(),
            records == records_of(dataset, rows(batch@)),
            csv_text(records.take(i as int)) == Some(out@),
        decreases batch.len() - i,
    {
        proof {
            assert(records.take(i + 1).drop_last() =~= records.take(i as int));
            assert(records.take(i + 1).last() == columns_of(dataset, batch@[i as int]@));
        }
        let fields = columns(dataset, &batch[i]);
        if !append_encoded(&mut out, encode_record(&fields)) {
            proof {
                lemma_csv_text_fails(records, i + 1);
            }
            return None;
        }
        i += 1;
    }
    assert(records.take(batch.len() as int) =~= records);
    Some(out)
}

/// The key of the file that a row goes to when the output is sharded: its
/// grouping key, or `unknown` where it has none.
pub open spec fn shard_key(row: FieldRow) -> Seq<char> {
    match row.group_key {
        Some(key) => key,
        None => "unknown"@,
    }
}

/// The rows of one output file.
pub ghost struct ShardModel {
    pub key: Seq<char>,
    pub rows: Seq<FieldRow>,
}

/// The rows of one output file.
#[derive(Debug)]
pub struct Shard {
    pub key: String,
    pub rows: Vec<FieldData>,
}

impl View for Shard {
    type V = ShardModel;

    open spec fn view(&self) -> ShardModel {
        ShardModel { key: self.key@, rows: rows(self.rows@) }
    }
}

/// The shards that a sequence of shards holds.
pub open spec fn shard_views(v: Seq<Shard>) -> Seq<ShardModel> {
    Seq::new(v.len(), |i: int| v[i]@)
}

/// The position of the shard for `key`.
pub open spec fn shard_position(shards: Seq<ShardModel>, key: Seq<char>) -> Option<int>
    decreases shards.len(),
{
    if shards.len() == 0 {
        None
    } else {
        match shard_position(shards.drop_last(), key) {
            Some(i) => Some(i),
            None => if shards.last().key == key {
                Some(shards.len() - 1)
            } else {
                None
            },
        }
    }
}

/// `shards` with `row` added to the shard of its key; a key that is new
/// gets a shard at the end.
pub open spec fn with_row(shards: Seq<ShardModel>, row: FieldRow) -> Seq<ShardModel> {
    match shard_position(shards, shard_key(row)) {
        Some(i) => shards.update(i, ShardModel { key: shards[i].key, rows: shards[i].rows.push(row) }),
        None => shards.push(ShardModel { key: shard_key(row), rows: seq![row] }),
    }
}

/// The rows of a batch by the file they go to: shards in the order in which
/// their keys first appear, rows in the order of the batch.
pub open spec fn sharded(batch: Seq<FieldRow>) -> Seq<ShardModel>
    decreases batch.len(),
{
    if batch.len() == 0 {
        Seq::empty()
    } else {
        with_row(sharded(batch.drop_last()), batch.last())
    }
}

/// The number of rows in all shards together.
pub open spec fn shard_rows(shards: Seq<ShardModel>) -> nat
    decreases shards.len(),
{
    if shards.len() == 0 {
        0
    } else {
        shard_rows(shards.drop_last()) + shards.last().rows.len()
    }
}

/// Whether each shard holds rows of its own key only, and no two shards have
/// the same key.
pub open spec fn well_sharded(shards: Seq<ShardModel>) -> bool {
    &&& forall|i: int, j: int|
        0 <= i < j < shards.len() ==> (#[trigger] shards[i]).key != (#[trigger] shards[j]).key
    &&& forall|i: int, k: int|
        0 <= i < shards.len() && 0 <= k < shards[i].rows.len() ==> shard_key(
            #[trigger] shards[i].rows[k],
        ) == shards[i].key
}

proof fn lemma_shard_position(shards: Seq<ShardModel>, key: Seq<char>)
    ensures
        match shard_position(shards, key) {
            Some(i) => 0 <= i < shards.len() && shards[i].key == key && forall|k: int|
                0 <= k < i ==> (#[trigger] shards[k]).key != key,
            None => forall|k: int| 0 <= k < shards.len() ==> (#[trigger] shards[k]).key != key,
        },
    decreases shards.len(),
{
    if shards.len() > 0 {
        let front = shards.drop_last();
        lemma_shard_position(front, key);
        match shard_position(front, key) {
            Some(i) => {
                assert(front[i] == shards[i]);
                assert forall|k: int| 0 <= k < i implies (#[trigger] shards[k]).key != key by {
                    assert(front[k] == shards[k]);
                }
            },
            None => {
                assert forall|k: int| 0 <= k < shards.len() - 1 implies (#[trigger] shards[k]).key
                    != key by {
                    assert(front[k] == shards[k]);
                }
            },
        }
    }
}

proof fn lemma_shard_rows_update(shards: Seq<ShardModel>, at: int, changed: ShardModel)
    requires
        0 <= at < shards.len(),
    ensures
        shard_rows(shards.update(at, changed)) == shard_rows(shards) - shards[at].rows.len()
            + changed.rows.len(),
    decreases shards.len(),
{
    let after = shards.update(at, changed);
    if at == shards.len() - 1 {
        assert(after.drop_last() =~= shards.drop_last());
    } else {
        lemma_shard_rows_update(shards.drop_last(), at, changed);
        assert(after.drop_last() =~= shards.drop_last().update(at, changed));
    }
}

/// Sharding loses no row and mixes no keys: the shards have distinct keys,
/// each holds rows of its key only, and together they hold as many rows as
/// the batch.
pub proof fn lemma_sharded(batch: Seq<FieldRow>)
    ensures
        well_sharded(sharded(batch)),
        shard_rows(sharded(batch)) == batch.len(),
    decreases batch.len(),
{
    if batch.len() > 0 {
        let before = sharded(batch.drop_last());
        let row = batch.last();
        let after = with_row(before, row);
        lemma_sharded(batch.drop_last());
        lemma_shard_position(before, shard_key(row));
        match shard_position(before, shard_key(row)) {
            Some(i) => {
                lemma_shard_rows_update(before, i, after[i]);
                assert forall|a: int, b: int| 0 <= a < b < after.len() implies (#[trigger] after[a]).key
                    != (#[trigger] after[b]).key by {
                    assert(after[a].key == before[a].key);
                    assert(after[b].key == before[b].key);
                }
                assert forall|a: int, k: int|
                    0 <= a < after.len() && 0 <= k < after[a].rows.len() implies shard_key(
                    #[trigger] after[a].rows[k],
                ) == after[a].key by {
                    if a == i {
                        if k < before[i].rows.len() {
                            assert(after[a].rows[k] == before[i].rows[k]);
                        }
                    } else {
                        assert(after[a] == before[a]);
                    }
                }
            },
            None => {
                assert(after.drop_last() =~= before);
                assert forall|a: int, b: int| 0 <= a < b < after.len() implies (#[trigger] after[a]).key
                    != (#[trigger] after[b]).key by {
                    assert(after[a] == before[a]);
                    if b < before.len() {
                        assert(after[b] == before[b]);
                    }
                }
                assert forall|a: int, k: int|
                    0 <= a < after.len() && 0 <= k < after[a].rows.len() implies shard_key(
                    #[trigger] after[a].rows[k],
                ) == after[a].key by {
                    if a < before.len() {
                        assert(after[a] == before[a]);
                    }
                }
            },
        }
    }
}

fn key_of(row: &FieldData) -> (key: String)
    ensures
        key@ == shard_key(row@),
{
    match &row.group_key {
        Some(k) => k.clone(),
        None => "unknown".to_owned(),
    }
}

fn find_shard(shards: &Vec<Shard>, key: &str) -> (r: Option<usize>)
    ensures
        match r {
            Some(i) => shard_position(shard_views(shards@), key@) == Some(i as int) && i
                < shards@.len(),
            None => shard_position(shard_views(shards@), key@) is None,
        },
{
    let mut i: usize = 0;
    proof {
        lemma_shard_position(shard_views(shards@), key@);
    }
    while i < shards.len()
        invariant
            i <= shards.len(),
            forall|k: int| 0 <= k < i ==> (#[trigger] shard_views(shards@)[k]).key != key@,
        decreases shards.len() - i,
    {
        if crate::text::same_text(shards[i].key.as_str(), key) {
            proof {
                assert(shard_views(shards@)[i as int].key == key@);
                lemma_shard_position(shard_views(shards@), key@);
            }
            return Some(i);
        }
        i += 1;
    }
    None
}

/// The number of rows in the shards of all of `batches` together.
pub open spec fn rows_sharded(batches: Seq<Seq<FieldRow>>) -> nat
    decreases batches.len(),
{
    if batches.len() == 0 {
        0
    } else {
        rows_sharded(batches.drop_last()) + shard_rows(sharded(batches.last()))
    }
}

/// The number of rows in all of `batches` together.
pub open spec fn rows_handed_in(batches: Seq<Seq<FieldRow>>) -> nat
    decreases batches.len(),
{
    if batches.len() == 0 {
        0
    } else {
        rows_handed_in(batches.drop_last()) + batches.last().len()
    }
}

/// Over any number of batches, the files get as many rows as were handed
/// in.
pub proof fn lemma_batches_sharded(batches: Seq<Seq<FieldRow>>)
    ensures
        rows_sharded(batches) == rows_handed_in(batches),
    decreases batches.len(),
{
    if batches.len() > 0 {
        lemma_batches_sharded(batches.drop_last());
        lemma_sharded(batches.last());
    }
}

/// Sorts the rows of a batch by the file they go to.
pub fn shards_of(batch: Vec<FieldData>) -> (shards: Vec<Shard>)
    ensures
        shard_views(shards@) == sharded(rows(batch@)),
{
    let mut shards: Vec<Shard> = Vec::new();
    let ghost all = batch@;
    assert(shard_views(shards@) =~= Seq::empty());
    for row in it: batch
        invariant
            it.seq() == all,
            shard_views(shards@) == sharded(rows(all).take(it.index() as int)),
    {
        proof {
            let next = rows(all).take(it.index() + 1);
            assert(next.drop_last() =~= rows(all).take(it.index() as int));
            assert(next.last() == row@);
        }
        let ghost before = shard_views(shards@);
        let key = key_of(&row);
        match find_shard(&shards, key.as_str()) {
            Some(i) => {
                let mut shard = shards.remove(i);
                let ghost earlier = shard.rows@;
                shard.rows.push(row);
                assert(rows(shard.rows@) =~= rows(earlier).push(row@));
                shards.insert(i, shard);
                assert(shard_views(shards@) =~= with_row(before, row@));
            },
            None => {
                let mut first: Vec<FieldData> = Vec::new();
                first.push(row);
                assert(rows(first@) =~= seq![row@]);
                shards.push(Shard { key, rows: first });
                assert(shard_views(shards@) =~= with_row(before, row@));
            },
        }
    }
    assert(rows(all).take(all.len() as int) =~= rows(all));
    shards
}

} // verus!
