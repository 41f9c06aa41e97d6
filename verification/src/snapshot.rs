use crate::account::{
    blob_outcome, decode_blob_with, AccountError, DecodedAccount, ItemFailure, Record,
};
use crate::resolver::TagTable;
use crate::schema::Schema;
use crate::text::{contains_text, texts};
use vstd::prelude::*;

verus! {

/// The map that a list of records spells, a later record replacing an
/// earlier one of the same identifier.
pub open spec fn map_of(entries: Seq<DecodedAccount>) -> Map<Seq<char>, Record>
    decreases entries.len(),
{
    if entries.len() == 0 {
        Map::empty()
    } else {
        map_of(entries.drop_last()).insert(entries.last().pubkey@, entries.last()@)
    }
}

/// No two records have the same identifier.
pub open spec fn distinct_keys(entries: Seq<DecodedAccount>) -> bool {
    forall|i: int, j: int|
        0 <= i < j < entries.len() ==> (#[trigger] entries[i]).pubkey@ != (
        #[trigger] entries[j]).pubkey@
}

/// The map has exactly the identifiers of the list.
pub proof fn lemma_map_of_keys(entries: Seq<DecodedAccount>, key: Seq<char>)
    ensures
        map_of(entries).dom().contains(key) <==> exists|i: int|
            0 <= i < entries.len() && (#[trigger] entries[i]).pubkey@ == key,
    decreases entries.len(),
{
    if entries.len() > 0 {
        let front = entries.drop_last();
        lemma_map_of_keys(front, key);
        if map_of(entries).dom().contains(key) {
            if entries.last().pubkey@ == key {
                assert(entries[entries.len() - 1].pubkey@ == key);
            } else {
                let i = choose|i: int| 0 <= i < front.len() && (#[trigger] front[i]).pubkey@ == key;
                assert(entries[i].pubkey@ == key);
            }
        }
        if exists|i: int| 0 <= i < entries.len() && (#[trigger] entries[i]).pubkey@ == key {
            let i = choose|i: int| 0 <= i < entries.len() && (#[trigger] entries[i]).pubkey@ == key;
            if i < front.len() {
                assert(front[i].pubkey@ == key);
            }
        }
    }
}

/// Each record of a list without repeated identifiers is what the map has
/// under its identifier.
pub proof fn lemma_map_of_at(entries: Seq<DecodedAccount>, at: int)
    requires
        distinct_keys(entries),
        0 <= at < entries.len(),
    ensures
        map_of(entries).dom().contains(entries[at].pubkey@),
        map_of(entries)[entries[at].pubkey@] == entries[at]@,
    decreases entries.len(),
{
    if at < entries.len() - 1 {
        let front = entries.drop_last();
        assert(distinct_keys(front)) by {
            assert forall|i: int, j: int| 0 <= i < j < front.len() implies (#[trigger] front[i]).pubkey@
                != (#[trigger] front[j]).pubkey@ by {
                assert(entries[i].pubkey@ != entries[j].pubkey@);
            }
        }
        lemma_map_of_at(front, at);
        assert(entries[at].pubkey@ != entries[entries.len() - 1].pubkey@);
    }
}

/// Replacing a record by one of the same identifier is an insertion into
/// the map.
pub proof fn lemma_map_of_update(entries: Seq<DecodedAccount>, at: int, account: DecodedAccount)
    requires
        distinct_keys(entries),
        0 <= at < entries.len(),
        entries[at].pubkey@ == account.pubkey@,
    ensures
        distinct_keys(entries.update(at, account)),
        map_of(entries.update(at, account)) == map_of(entries).insert(account.pubkey@, account@),
    decreases entries.len(),
{
    let changed = entries.update(at, account);
    assert(distinct_keys(changed)) by {
        assert forall|i: int, j: int| 0 <= i < j < changed.len() implies (#[trigger] changed[i]).pubkey@
            != (#[trigger] changed[j]).pubkey@ by {
            assert(entries[i].pubkey@ != entries[j].pubkey@);
        }
    }
    let front = entries.drop_last();
    if at == entries.len() - 1 {
        assert(changed.drop_last() =~= front);
        assert(map_of(changed) =~= map_of(entries).insert(account.pubkey@, account@));
    } else {
        assert(distinct_keys(front)) by {
            assert forall|i: int, j: int| 0 <= i < j < front.len() implies (#[trigger] front[i]).pubkey@
                != (#[trigger] front[j]).pubkey@ by {
                assert(entries[i].pubkey@ != entries[j].pubkey@);
            }
        }
        lemma_map_of_update(front, at, account);
        assert(changed.drop_last() =~= front.update(at, account));
        assert(changed.last() == entries.last());
        assert(entries[at].pubkey@ != entries[entries.len() - 1].pubkey@);
        assert(map_of(changed) =~= map_of(entries).insert(account.pubkey@, account@));
    }
}

/// The decoded accounts of one run, each under its identifier.
#[derive(Debug)]
pub struct Snapshot {
    entries: Vec<DecodedAccount>,
}

impl View for Snapshot {
    type V = Map<Seq<char>, Record>;

    closed spec fn view(&self) -> Map<Seq<char>, Record> {
        map_of(self.entries@)
    }
}

impl Snapshot {
    /// Every identifier is held once.
    pub closed spec fn wf(&self) -> bool {
        distinct_keys(self.entries@)
    }

    /// The empty snapshot.
    pub fn new() -> (snapshot: Snapshot)
        ensures
            snapshot.wf(),
            snapshot@ == Map::<Seq<char>, Record>::empty(),
    {
        Snapshot { entries: Vec::new() }
    }

    /// The number of accounts held.
    pub fn len(&self) -> (n: usize)
        requires
            self.wf(),
        ensures
            self@.dom().finite(),
            n == self@.dom().len(),
    {
        proof {
            lemma_map_of_len(self.entries@);
        }
        self.entries.len()
    }

    /// Index of the account held under `pubkey`.
    fn position(&self, pubkey: &String) -> (found: Option<usize>)
        ensures
            match found {
                Some(i) => i < self.entries@.len() && self.entries@[i as int].pubkey@ == pubkey@,
                None => forall|k: int|
                    0 <= k < self.entries@.len() ==> (#[trigger] self.entries@[k]).pubkey@
                        != pubkey@,
            },
    {
        let mut i: usize = 0;
        while i < self.entries.len()
            invariant
                i <= self.entries@.len(),
                forall|k: int| 0 <= k < i ==> (#[trigger] self.entries@[k]).pubkey@ != pubkey@,
            decreases self.entries@.len() - i,
        {
            if self.entries[i].pubkey == *pubkey {
                return Some(i);
            }
            i = i + 1;
        }
        None
    }

    /// The account held under `pubkey`, if there is one.
    pub fn get(&self, pubkey: &String) -> (found: Option<&DecodedAccount>)
        requires
            self.wf(),
        ensures
            match found {
                Some(account) => self@.dom().contains(pubkey@) && self@[pubkey@] == account@,
                None => !self@.dom().contains(pubkey@),
            },
    {
        match self.position(pubkey) {
            Some(i) => {
                proof {
                    lemma_map_of_at(self.entries@, i as int);
                }
                Some(&self.entries[i])
            },
            None => {
                proof {
                    lemma_map_of_keys(self.entries@, pubkey@);
                }
                None
            },
        }
    }

    /// Puts `account` under its identifier, in place of the account that
    /// was held under it, if any.
    pub fn insert(&mut self, account: DecodedAccount)
        requires
            old(self).wf(),
        ensures
            final(self).wf(),
            final(self)@ == old(self)@.insert(account.pubkey@, account@),
    {
        match self.position(&account.pubkey) {
            Some(i) => {
                proof {
                    lemma_map_of_update(self.entries@, i as int, account);
                }
                self.entries.set(i, account);
            },
            None => {
                let ghost before = self.entries@;
                self.entries.push(account);
                proof {
                    assert(self.entries@.drop_last() =~= before);
                    assert(distinct_keys(self.entries@)) by {
                        assert forall|i: int, j: int|
                            0 <= i < j < self.entries@.len() implies (
                        #[trigger] self.entries@[i]).pubkey@ != (
                        #[trigger] self.entries@[j]).pubkey@ by {
                            if j < before.len() {
                                assert(before[i].pubkey@ != before[j].pubkey@);
                            } else {
                                assert(before[i].pubkey@ != account.pubkey@);
                            }
                        }
                    }
                }
            },
        }
    }

    /// The accounts held, one per identifier, in no particular order.
    pub fn entries(&self) -> (entries: &Vec<DecodedAccount>)
        requires
            self.wf(),
        ensures
            distinct_keys(entries@),
            map_of(entries@) == self@,
    {
        &self.entries
    }
}

/// A list without repeated identifiers spells a map of as many entries.
pub proof fn lemma_map_of_len(entries: Seq<DecodedAccount>)
    requires
        distinct_keys(entries),
    ensures
        map_of(entries).dom().finite(),
        map_of(entries).dom().len() == entries.len(),
    decreases entries.len(),
{
    if entries.len() > 0 {
        let front = entries.drop_last();
        assert(distinct_keys(front)) by {
            assert forall|i: int, j: int| 0 <= i < j < front.len() implies (#[trigger] front[i]).pubkey@
                != (#[trigger] front[j]).pubkey@ by {
                assert(entries[i].pubkey@ != entries[j].pubkey@);
            }
        }
        lemma_map_of_len(front);
        lemma_map_of_keys(front, entries.last().pubkey@);
        if map_of(front).dom().contains(entries.last().pubkey@) {
            let i = choose|i: int|
                0 <= i < front.len() && (#[trigger] front[i]).pubkey@ == entries.last().pubkey@;
            assert(entries[i].pubkey@ != entries[entries.len() - 1].pubkey@);
        }
        assert(map_of(entries).dom() =~= map_of(front).dom().insert(entries.last().pubkey@));
    } else {
        assert(map_of(entries).dom() =~= Set::<Seq<char>>::empty());
    }
}

/// One blob with the identifier of the account that it was read from.
#[derive(Debug, PartialEq, Eq)]
pub struct RawAccount {
    pub identifier: String,
    pub data: Vec<u8>,
}

/// A blob that gave no record, and why.
#[derive(Debug, PartialEq, Eq)]
pub struct Rejected {
    pub identifier: String,
    pub error: AccountError,
}

impl View for Rejected {
    type V = (Seq<char>, ItemFailure);

    open spec fn view(&self) -> (Seq<char>, ItemFailure) {
        (self.identifier@, self.error@)
    }
}

/// What a run over a list of blobs gives: the snapshot; the records that
/// the allow-list kept out of it, in the order in which they came; and the
/// blobs that failed, in the order in which they came.
#[derive(Debug)]
pub struct Aggregation {
    pub snapshot: Snapshot,
    pub skipped: Vec<DecodedAccount>,
    pub failures: Vec<Rejected>,
}

/// The snapshot of a list of blobs: each blob that gives a record whose
/// type is in `allow` is put under its identifier, in the order of the
/// list; the others leave the snapshot as it is.
pub open spec fn collected(
    schema: Schema,
    registered: Seq<Seq<char>>,
    allow: Seq<Seq<char>>,
    items: Seq<RawAccount>,
) -> Map<Seq<char>, Record>
    decreases items.len(),
{
    if items.len() == 0 {
        Map::empty()
    } else {
        let before = collected(schema, registered, allow, items.drop_last());
        let last = items.last();
        match blob_outcome(schema, registered, last.identifier@, last.data@) {
            Ok(record) => if allow.contains(record.account_type) {
                before.insert(record.pubkey, record)
            } else {
                before
            },
            Err(_) => before,
        }
    }
}

/// The records of a list of blobs that the allow-list keeps out of the
/// snapshot, in the order of the list.
pub open spec fn passed_over(
    schema: Schema,
    registered: Seq<Seq<char>>,
    allow: Seq<Seq<char>>,
    items: Seq<RawAccount>,
) -> Seq<Record>
    decreases items.len(),
{
    if items.len() == 0 {
        Seq::empty()
    } else {
        let before = passed_over(schema, registered, allow, items.drop_last());
        let last = items.last();
        match blob_outcome(schema, registered, last.identifier@, last.data@) {
            Ok(record) => if allow.contains(record.account_type) {
                before
            } else {
                before.push(record)
            },
            Err(_) => before,
        }
    }
}

/// What each of a list of accounts stands for.
pub open spec fn records(accounts: Seq<DecodedAccount>) -> Seq<Record> {
    accounts.map_values(|a: DecodedAccount| a@)
}

/// The failures of a list of blobs, in the order of the list.
pub open spec fn rejected(schema: Schema, registered: Seq<Seq<char>>, items: Seq<RawAccount>) -> Seq<
    (Seq<char>, ItemFailure),
>
    decreases items.len(),
{
    if items.len() == 0 {
        Seq::empty()
    } else {
        let before = rejected(schema, registered, items.drop_last());
        let last = items.last();
        match blob_outcome(schema, registered, last.identifier@, last.data@) {
            Ok(_) => before,
            Err(failure) => before.push((last.identifier@, failure)),
        }
    }
}

/// What each of a list of rejected blobs stands for.
pub open spec fn rejections(failures: Seq<Rejected>) -> Seq<(Seq<char>, ItemFailure)> {
    failures.map_values(|r: Rejected| r@)
}

/// Decodes every blob of `items` and collects the records whose type is in
/// `allow`. A record of another type is handed back beside the snapshot. A
/// blob that fails is recorded and skipped; the run goes on.
pub fn aggregate(
    schema: &Schema,
    registered: &Vec<String>,
    allow: &Vec<String>,
    items: &Vec<RawAccount>,
) -> (out: Aggregation)
    ensures
        out.snapshot.wf(),
        out.snapshot@ == collected(*schema, texts(registered@), texts(allow@), items@),
        records(out.skipped@) == passed_over(
            *schema,
            texts(registered@),
            texts(allow@),
            items@,
        ),
        rejections(out.failures@) == rejected(*schema, texts(registered@), items@),
{
    let table = TagTable::new(schema);
    let mut snapshot = Snapshot::new();
    let mut skipped: Vec<DecodedAccount> = Vec::new();
    let mut failures: Vec<Rejected> = Vec::new();
    let mut i: usize = 0;
    assert(items@.subrange(0, 0) =~= Seq::<RawAccount>::empty());
    assert(records(skipped@) =~= Seq::<Record>::empty());
    assert(rejections(failures@) =~= Seq::<(Seq<char>, ItemFailure)>::empty());
    while i < items.len()
        invariant
            i <= items@.len(),
            table.covers(*schema),
            snapshot.wf(),
            snapshot@ == collected(
                *schema,
                texts(registered@),
                texts(allow@),
                items@.subrange(0, i as int),
            ),
            records(skipped@) == passed_over(
                *schema,
                texts(registered@),
                texts(allow@),
                items@.subrange(0, i as int),
            ),
            rejections(failures@) == rejected(
                *schema,
                texts(registered@),
                items@.subrange(0, i as int),
            ),
        decreases items@.len() - i,
    {
        let item = &items[i];
        proof {
            let upto = items@.subrange(0, i + 1);
            assert(upto.drop_last() =~= items@.subrange(0, i as int));
            assert(upto.last() == items@[i as int]);
        }
        match decode_blob_with(&table, schema, registered, item.identifier.as_str(), item.data.as_slice()) {
            Ok(account) => {
                if contains_text(allow, &account.account_type) {
                    snapshot.insert(account);
                } else {
                    let ghost before = skipped@;
                    skipped.push(account);
                    assert(records(skipped@) =~= records(before).push(account@));
                }
            },
            Err(error) => {
                let ghost before = failures@;
                let entry = Rejected { identifier: item.identifier.clone(), error };
                failures.push(entry);
                assert(rejections(failures@) =~= rejections(before).push(entry@));
            },
        }
        i = i + 1;
    }
    assert(items@.subrange(0, i as int) =~= items@);
    Aggregation { snapshot, skipped, failures }
}

/// No two blobs have the same identifier.
pub open spec fn distinct_identifiers(items: Seq<RawAccount>) -> bool {
    forall|i: int, j: int|
        0 <= i < j < items.len() ==> (#[trigger] items[i]).identifier@ != (
        #[trigger] items[j]).identifier@
}

/// The blob at `at` gives a record that the allow-list lets through.
pub open spec fn admitted(
    schema: Schema,
    registered: Seq<Seq<char>>,
    allow: Seq<Seq<char>>,
    item: RawAccount,
) -> bool {
    blob_outcome(schema, registered, item.identifier@, item.data@) matches Ok(record)
        && allow.contains(record.account_type)
}

/// The snapshot holds identifiers of admitted blobs only.
pub proof fn lemma_collected_keys(
    schema: Schema,
    registered: Seq<Seq<char>>,
    allow: Seq<Seq<char>>,
    items: Seq<RawAccount>,
    key: Seq<char>,
)
    requires
        collected(schema, registered, allow, items).dom().contains(key),
    ensures
        exists|i: int|
            0 <= i < items.len() && (#[trigger] items[i]).identifier@ == key && admitted(
                schema,
                registered,
                allow,
                items[i],
            ),
    decreases items.len(),
{
    if items.len() > 0 {
        let front = items.drop_last();
        let last = items.last();
        if admitted(schema, registered, allow, last) && last.identifier@ == key {
            assert(items[items.len() - 1].identifier@ == key);
        } else {
            lemma_collected_keys(schema, registered, allow, front, key);
            let i = choose|i: int|
                0 <= i < front.len() && (#[trigger] front[i]).identifier@ == key && admitted(
                    schema,
                    registered,
                    allow,
                    front[i],
                );
            assert(items[i] == front[i]);
        }
    }
}

/// Where no two blobs share an identifier, the snapshot holds, under the
/// identifier of each admitted blob, the record that the blob gives.
pub proof fn lemma_collected_at(
    schema: Schema,
    registered: Seq<Seq<char>>,
    allow: Seq<Seq<char>>,
    items: Seq<RawAccount>,
    at: int,
)
    requires
        distinct_identifiers(items),
        0 <= at < items.len(),
        admitted(schema, registered, allow, items[at]),
    ensures
        collected(schema, registered, allow, items).dom().contains(items[at].identifier@),
        Ok::<Record, ItemFailure>(
            collected(schema, registered, allow, items)[items[at].identifier@],
        ) == blob_outcome(schema, registered, items[at].identifier@, items[at].data@),
    decreases items.len(),
{
    let front = items.drop_last();
    let last = items.last();
    if at < items.len() - 1 {
        assert(distinct_identifiers(front)) by {
            assert forall|i: int, j: int| 0 <= i < j < front.len() implies (
            #[trigger] front[i]).identifier@ != (#[trigger] front[j]).identifier@ by {
                assert(items[i].identifier@ != items[j].identifier@);
            }
        }
        assert(front[at] == items[at]);
        lemma_collected_at(schema, registered, allow, front, at);
        assert(items[at].identifier@ != items[items.len() - 1].identifier@);
    }
}

/// Aggregating is a function of its inputs: two runs over the same blobs
/// with the same schema and lists give the same snapshot.
pub proof fn lemma_aggregate_repeatable(
    schema: Schema,
    registered: Seq<Seq<char>>,
    allow: Seq<Seq<char>>,
    items: Seq<RawAccount>,
    first: Snapshot,
    second: Snapshot,
)
    requires
        first@ == collected(schema, registered, allow, items),
        second@ == collected(schema, registered, allow, items),
    ensures
        first@ == second@,
{
}

/// Where no two blobs share an identifier, the snapshot does not depend on
/// the order of the blobs: two lists of the same blobs give the same
/// snapshot.
pub proof fn lemma_collected_any_order(
    schema: Schema,
    registered: Seq<Seq<char>>,
    allow: Seq<Seq<char>>,
    one: Seq<RawAccount>,
    other: Seq<RawAccount>,
)
    requires
        distinct_identifiers(one),
        distinct_identifiers(other),
        forall|item: RawAccount| one.contains(item) <==> other.contains(item),
    ensures
        collected(schema, registered, allow, one) == collected(schema, registered, allow, other),
{
    let left = collected(schema, registered, allow, one);
    let right = collected(schema, registered, allow, other);
    assert forall|key: Seq<char>| #[trigger] left.dom().contains(key) implies right.dom().contains(
        key,
    ) && left[key] == right[key] by {
        lemma_collected_keys(schema, registered, allow, one, key);
        let i = choose|i: int|
            0 <= i < one.len() && (#[trigger] one[i]).identifier@ == key && admitted(
                schema,
                registered,
                allow,
                one[i],
            );
        lemma_collected_at(schema, registered, allow, one, i);
        assert(one.contains(one[i]));
        assert(other.contains(one[i]));
        let j = choose|j: int| 0 <= j < other.len() && other[j] == one[i];
        lemma_collected_at(schema, registered, allow, other, j);
    }
    assert forall|key: Seq<char>| #[trigger] right.dom().contains(key) implies left.dom().contains(
        key,
    ) by {
        lemma_collected_keys(schema, registered, allow, other, key);
        let j = choose|j: int|
            0 <= j < other.len() && (#[trigger] other[j]).identifier@ == key && admitted(
                schema,
                registered,
                allow,
                other[j],
            );
        assert(other.contains(other[j]));
        assert(one.contains(other[j]));
        let i = choose|i: int| 0 <= i < one.len() && one[i] == other[j];
        lemma_collected_at(schema, registered, allow, one, i);
    }
    assert(left.dom() =~= right.dom());
    assert(left =~= right);
}

} // verus!
