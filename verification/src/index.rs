use crate::ident::Identifier;
use crate::note::copy_identifiers;
use crate::table::NameTable;
use crate::text::{increasing, lemma_precedes_asymmetric};
use std::collections::{BTreeMap, HashMap};
use vstd::prelude::*;

verus! {

/// The error of the `bincode` crate, which says why bytes are not read or written.
#[verifier::external_type_specification]
#[verifier::external_body]
pub struct ExBincodeErrorKind(bincode::ErrorKind);

/// What `bincode::deserialize` makes of the bytes of a keyword index, read
/// as a map from keywords to lists of identifiers: for each keyword the
/// bits of its identifiers, big end first, or nothing where it reports an
/// error.
pub uninterp spec fn decoded_index(bytes: Seq<u8>) -> Option<Map<Seq<char>, Seq<u128>>>;

/// The map that a list of keywords with their notes stands for: each
/// keyword with the notes beside it, the later of two entries for one
/// keyword.
pub open spec fn entries_map(entries: Seq<(String, Vec<u128>)>) -> Map<Seq<char>, Seq<u128>>
    decreases entries.len(),
{
    if entries.len() == 0 {
        Map::empty()
    } else {
        entries_map(entries.drop_last()).insert(entries.last().0@, entries.last().1@)
    }
}

/// Reads a keyword index with `bincode::deserialize`, as a map from
/// `String` to `Vec<uuid::Uuid>`, and hands its entries back in no order
/// that is known. Trusted: the entries stand for the map named by
/// [`decoded_index`], whatever their order; an error comes back exactly
/// where that name is nothing.
#[verifier::external_body]
fn read_index(bytes: &[u8]) -> (r: Result<Vec<(String, Vec<u128>)>, bincode::Error>)
    ensures
        r is Ok <==> decoded_index(bytes@) is Some,
        r matches Ok(entries) ==> decoded_index(bytes@) == Some(entries_map(entries@)),
{
    let index: HashMap<String, Vec<uuid::Uuid>> = bincode::deserialize(bytes)?;
    let mut entries: Vec<(String, Vec<u128>)> = Vec::new();
    for (keyword, notes) in index {
        entries.push((keyword, notes.iter().map(|u| u.as_u128()).collect()));
    }
    Ok(entries)
}

/// What `bincode::serialize` makes of a keyword index, given as a map
/// from keywords to lists of identifiers that is walked in the order of
/// its keywords: the bytes it writes, or nothing where it reports an
/// error.
pub uninterp spec fn written_index(index: Map<Seq<char>, Seq<u128>>) -> Option<Seq<u8>>;

/// Writes a keyword index with `bincode::serialize`, as a `BTreeMap` from
/// `String` to `Vec<uuid::Uuid>` that holds each keyword with the notes
/// beside it. The entries come in the order of their keywords, one for
/// each, so that the map is walked in the order of the entries. Trusted:
/// the result is the one named by [`written_index`] for the map that the
/// entries stand for, and bytes that come back are read again, by
/// `bincode::deserialize`, as that map.
#[verifier::external_body]
fn write_index(entries: &Vec<(String, Vec<u128>)>) -> (r: Result<Vec<u8>, bincode::Error>)
    requires
        increasing(raw_names(entries@)),
    ensures
        match r {
            Ok(bytes) => written_index(entries_map(entries@)) == Some(bytes@),
            Err(_) => written_index(entries_map(entries@)) is None,
        },
        r matches Ok(bytes) ==> decoded_index(bytes@) == Some(entries_map(entries@)),
{
    let mut index: BTreeMap<String, Vec<uuid::Uuid>> = BTreeMap::new();
    for (keyword, notes) in entries {
        index.insert(keyword.clone(), notes.iter().map(|v| uuid::Uuid::from_u128(*v)).collect());
    }
    bincode::serialize(&index)
}

/// The identifiers with the given bits.
pub open spec fn identified(bits: Seq<u128>) -> Seq<Identifier> {
    bits.map_values(|v: u128| Identifier { value: v })
}

/// The bits of the given identifiers.
pub open spec fn bits_of(ids: Seq<Identifier>) -> Seq<u128> {
    ids.map_values(|id: Identifier| id.value)
}

/// The keyword index that a map from keywords to bits stands for.
pub open spec fn index_of_bits(m: Map<Seq<char>, Seq<u128>>) -> Map<Seq<char>, Seq<Identifier>> {
    m.map_values(|bits: Seq<u128>| identified(bits))
}

/// The map from keywords to bits that a keyword index is written as.
pub open spec fn bits_of_index(index: Map<Seq<char>, Seq<Identifier>>) -> Map<
    Seq<char>,
    Seq<u128>,
> {
    index.map_values(|ids: Seq<Identifier>| bits_of(ids))
}

/// The bytes that a keyword index is written to, its keywords in their
/// order, or nothing where the encoder fails on it.
pub open spec fn bytes_of_index(index: Map<Seq<char>, Seq<Identifier>>) -> Option<Seq<u8>> {
    written_index(bits_of_index(index))
}

/// The keyword index that bytes hold, or nothing where they hold none.
pub open spec fn index_of_bytes(bytes: Seq<u8>) -> Option<Map<Seq<char>, Seq<Identifier>>> {
    match decoded_index(bytes) {
        Some(m) => Some(index_of_bits(m)),
        None => None,
    }
}

/// The map that a list of keywords with their notes stands for.
pub open spec fn index_of_entries(entries: Seq<(String, Vec<Identifier>)>) -> Map<
    Seq<char>,
    Seq<Identifier>,
>
    decreases entries.len(),
{
    if entries.len() == 0 {
        Map::empty()
    } else {
        index_of_entries(entries.drop_last()).insert(entries.last().0@, entries.last().1@)
    }
}

fn to_identifiers(bits: &Vec<u128>) -> (ids: Vec<Identifier>)
    ensures
        ids@ == identified(bits@),
{
    let mut ids: Vec<Identifier> = Vec::new();
    let mut i: usize = 0;
    while i < bits.len()
        invariant
            i <= bits.len(),
            ids@ == identified(bits@.take(i as int)),
        decreases bits.len() - i,
    {
        ids.push(Identifier { value: bits[i] });
        proof {
            assert(bits@.take(i + 1) =~= bits@.take(i as int).push(bits@[i as int]));
            assert(identified(bits@.take(i + 1)) =~= identified(bits@.take(i as int)).push(
                Identifier { value: bits@[i as int] },
            ));
        }
        i += 1;
    }
    proof {
        assert(bits@.take(bits.len() as int) =~= bits@);
    }
    ids
}

fn to_bits(ids: &Vec<Identifier>) -> (bits: Vec<u128>)
    ensures
        bits@ == bits_of(ids@),
        identified(bits@) == ids@,
{
    let mut bits: Vec<u128> = Vec::new();
    let mut i: usize = 0;
    while i < ids.len()
        invariant
            i <= ids.len(),
            bits@ == bits_of(ids@.take(i as int)),
        decreases ids.len() - i,
    {
        bits.push(ids[i].value);
        proof {
            assert(ids@.take(i + 1) =~= ids@.take(i as int).push(ids@[i as int]));
            assert(bits_of(ids@.take(i + 1)) =~= bits_of(ids@.take(i as int)).push(
                ids@[i as int].value,
            ));
        }
        i += 1;
    }
    proof {
        assert(ids@.take(ids.len() as int) =~= ids@);
        assert(identified(bits@) =~= ids@);
    }
    bits
}

/// Reads a keyword index from the bytes that hold it: its entries, in
/// no order that is known, or nothing where the bytes hold no index.
pub fn decode_index(bytes: &Vec<u8>) -> (r: Option<Vec<(String, Vec<Identifier>)>>)
    ensures
        r is Some <==> index_of_bytes(bytes@) is Some,
        r matches Some(entries) ==> index_of_bytes(bytes@) == Some(index_of_entries(entries@)),
{
    let raw = match read_index(bytes.as_slice()) {
        Ok(raw) => raw,
        Err(_) => {
            return None;
        },
    };
    let mut entries: Vec<(String, Vec<Identifier>)> = Vec::new();
    let mut i: usize = 0;
    proof {
        assert(index_of_entries(entries@) =~= index_of_bits(entries_map(raw@.take(0))));
    }
    while i < raw.len()
        invariant
            i <= raw.len(),
            index_of_entries(entries@) == index_of_bits(entries_map(raw@.take(i as int))),
        decreases raw.len() - i,
    {
        let keyword = raw[i].0.clone();
        let notes = to_identifiers(&raw[i].1);
        proof {
            let next = raw@.take(i + 1);
            assert(next.drop_last() =~= raw@.take(i as int));
            assert(next.last() == raw@[i as int]);
            let grown = entries@.push((keyword, notes));
            assert(grown.drop_last() =~= entries@);
            assert(grown.last() == (keyword, notes));
            assert(index_of_entries(grown) =~= index_of_bits(entries_map(next)));
        }
        entries.push((keyword, notes));
        i += 1;
    }
    proof {
        assert(raw@.take(raw.len() as int) =~= raw@);
    }
    Some(entries)
}

/// The names of a list of keywords with the bits of their notes.
pub open spec fn raw_names(entries: Seq<(String, Vec<u128>)>) -> Seq<Seq<char>> {
    entries.map_values(|e: (String, Vec<u128>)| e.0@)
}

/// The names of a list of keywords with their notes.
pub open spec fn entry_names(entries: Seq<(String, Vec<Identifier>)>) -> Seq<Seq<char>> {
    entries.map_values(|e: (String, Vec<Identifier>)| e.0@)
}

/// The table that holds the keyword index which the entries stand for.
pub(crate) fn table_of_entries(entries: &Vec<(String, Vec<Identifier>)>) -> (table: NameTable<
    Vec<Identifier>,
>)
    ensures
        table.wf(),
        table@ == index_of_entries(entries@),
{
    let mut table: NameTable<Vec<Identifier>> = NameTable::new();
    let mut i: usize = 0;
    proof {
        assert(entries@.take(0) =~= Seq::<(String, Vec<Identifier>)>::empty());
    }
    while i < entries.len()
        invariant
            i <= entries.len(),
            table.wf(),
            table@ == index_of_entries(entries@.take(i as int)),
        decreases entries.len() - i,
    {
        proof {
            assert(entries@.take(i + 1).drop_last() =~= entries@.take(i as int));
            assert(entries@.take(i + 1).last() == entries@[i as int]);
        }
        let notes = copy_identifiers(&entries[i].1);
        table.set(entries[i].0.as_str(), notes);
        i += 1;
    }
    proof {
        assert(entries@.take(entries.len() as int) =~= entries@);
    }
    table
}

/// The entries of a keyword index, in the order of the keywords and one
/// for each.
pub(crate) fn entries_of_table(table: &NameTable<Vec<Identifier>>) -> (entries: Vec<
    (String, Vec<Identifier>),
>)
    requires
        table.wf(),
    ensures
        increasing(entry_names(entries@)),
        index_of_entries(entries@) == table@,
{
    let n = table.len();
    let mut entries: Vec<(String, Vec<Identifier>)> = Vec::new();
    let mut i: usize = 0;
    let ghost names = table.names();
    let ghost items = table.items();
    proof {
        table.lemma_listing();
    }
    while i < n
        invariant
            table.wf(),
            i <= n,
            names == table.names(),
            items == table.items(),
            n == names.len(),
            n == items.len(),
            entries@.len() == i,
            forall|k: int|
                0 <= k < i ==> (#[trigger] entries@[k]).0@ == names[k] && entries@[k].1@
                    == items[k]@,
        decreases n - i,
    {
        let keyword = table.name_at(i).clone();
        let notes = copy_identifiers(table.item_at(i));
        entries.push((keyword, notes));
        i += 1;
    }
    proof {
        lemma_entries_of_listing(entries@, names, items, table@, n as int);
        assert(entries@.take(n as int) =~= entries@);
        assert(entry_names(entries@) =~= names);
    }
    entries
}

/// Writes a keyword index, given as entries in the order of their
/// keywords, one for each, to the bytes that hold it.
fn encode_ordered(entries: &Vec<(String, Vec<Identifier>)>) -> (r: Option<Vec<u8>>)
    requires
        increasing(entry_names(entries@)),
    ensures
        match r {
            Some(bytes) => bytes_of_index(index_of_entries(entries@)) == Some(bytes@)
                && index_of_bytes(bytes@) == Some(index_of_entries(entries@)),
            None => bytes_of_index(index_of_entries(entries@)) is None,
        },
{
    let mut raw: Vec<(String, Vec<u128>)> = Vec::new();
    let mut i: usize = 0;
    proof {
        assert(index_of_entries(entries@.take(0)) =~= index_of_bits(entries_map(raw@)));
        assert(entries_map(raw@) =~= bits_of_index(index_of_entries(entries@.take(0))));
        assert(raw_names(raw@) =~= entry_names(entries@).take(0));
    }
    while i < entries.len()
        invariant
            i <= entries.len(),
            index_of_entries(entries@.take(i as int)) == index_of_bits(entries_map(raw@)),
            entries_map(raw@) == bits_of_index(index_of_entries(entries@.take(i as int))),
            raw_names(raw@) == entry_names(entries@).take(i as int),
        decreases entries.len() - i,
    {
        let keyword = entries[i].0.clone();
        let bits = to_bits(&entries[i].1);
        proof {
            let next = entries@.take(i + 1);
            assert(next.drop_last() =~= entries@.take(i as int));
            assert(next.last() == entries@[i as int]);
            let grown = raw@.push((keyword, bits));
            assert(grown.drop_last() =~= raw@);
            assert(grown.last() == (keyword, bits));
            assert(index_of_entries(next) =~= index_of_bits(entries_map(grown)));
            assert(entries_map(grown) =~= bits_of_index(index_of_entries(next)));
            assert(raw_names(grown) =~= raw_names(raw@).push(keyword@));
            assert(entry_names(entries@).take(i + 1) =~= entry_names(entries@).take(
                i as int,
            ).push(entries@[i as int].0@));
        }
        raw.push((keyword, bits));
        i += 1;
    }
    proof {
        assert(entries@.take(entries.len() as int) =~= entries@);
        assert(entry_names(entries@).take(entries.len() as int) =~= entry_names(entries@));
    }
    match write_index(&raw) {
        Ok(bytes) => Some(bytes),
        Err(_) => None,
    }
}

/// Writes the keyword index that the entries stand for, the later of two
/// entries for one keyword, to the bytes that hold it. The bytes are those
/// that the encoder gives for the index, its keywords in their order,
/// whatever the order of the entries; they are read back as the index.
/// Nothing comes back where the encoder fails on the index.
pub fn encode_index(entries: &Vec<(String, Vec<Identifier>)>) -> (r: Option<Vec<u8>>)
    ensures
        match r {
            Some(bytes) => bytes_of_index(index_of_entries(entries@)) == Some(bytes@)
                && index_of_bytes(bytes@) == Some(index_of_entries(entries@)),
            None => bytes_of_index(index_of_entries(entries@)) is None,
        },
{
    let table = table_of_entries(entries);
    let ordered = entries_of_table(&table);
    encode_ordered(&ordered)
}

/// The entries that list a table stand for what the table holds.
proof fn lemma_entries_of_listing(
    entries: Seq<(String, Vec<Identifier>)>,
    names: Seq<Seq<char>>,
    items: Seq<Vec<Identifier>>,
    table: Map<Seq<char>, Seq<Identifier>>,
    k: int,
)
    requires
        0 <= k <= entries.len(),
        entries.len() == names.len(),
        names.len() == items.len(),
        forall|i: int|
            0 <= i < entries.len() ==> (#[trigger] entries[i]).0@ == names[i] && entries[i].1@
                == items[i]@,
        forall|q: Seq<char>| table.contains_key(q) <==> names.contains(q),
        forall|i: int|
            0 <= i < names.len() ==> table.contains_key(#[trigger] names[i]) && table[names[i]]
                == items[i]@,
        increasing(names),
    ensures
        index_of_entries(entries.take(k)).dom() =~= Set::new(
            |q: Seq<char>| exists|i: int| 0 <= i < k && names[i] == q,
        ),
        forall|i: int|
            0 <= i < k ==> index_of_entries(entries.take(k))[#[trigger] names[i]] == items[i]@,
        k == entries.len() ==> index_of_entries(entries.take(k)) == table,
    decreases k,
{
    let here = index_of_entries(entries.take(k));
    if k > 0 {
        lemma_entries_of_listing(entries, names, items, table, k - 1);
        let before = index_of_entries(entries.take(k - 1));
        assert(entries.take(k).drop_last() =~= entries.take(k - 1));
        assert(entries.take(k).last() == entries[k - 1]);
        assert(here == before.insert(names[k - 1], items[k - 1]@));
        assert forall|i: int| 0 <= i < k implies here[#[trigger] names[i]] == items[i]@ by {
            if i < k - 1 {
                lemma_precedes_asymmetric(names[i], names[k - 1]);
            }
        }
        assert forall|q: Seq<char>| here.dom().contains(q) <==> (exists|i: int|
            0 <= i < k && names[i] == q) by {
            if q == names[k - 1] {
            } else if before.dom().contains(q) {
                let i = choose|i: int| 0 <= i < k - 1 && names[i] == q;
                assert(names[i] == q);
            } else if exists|i: int| 0 <= i < k && names[i] == q {
                let i = choose|i: int| 0 <= i < k && names[i] == q;
                assert(0 <= i < k - 1 && names[i] == q);
            }
        }
    }
    if k == entries.len() {
        assert forall|q: Seq<char>| here.dom().contains(q) <==> table.dom().contains(q) by {
            if names.contains(q) {
                let i = choose|i: int| 0 <= i < names.len() && names[i] == q;
                assert(0 <= i < k && names[i] == q);
            }
        }
        assert(here =~= table);
    }
}


} // verus!
