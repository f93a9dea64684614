//! What a route reaches in a document, and the proof that extraction reports
//! each reached place.

use vstd::prelude::*;
use crate::json::{rendered, Json, JsonMember};
use crate::trie::{
    array_marker, emitted, extend_dotted, extract_at, extract_items, extract_members, item_path,
    residual, terminal_names, wildcard, Pattern, Triple,
};

verus! {

/// The number of places in `doc` that `route` leads to. A route at its end
/// leads to the document itself; a key leads into the member of that name,
/// the wildcard into every member, the array marker into every element. A
/// member whose key is the wildcard segment itself is reached by a wildcard
/// both as the member of that name and as any member, and counts twice.
pub open spec fn reach(doc: Json, route: Seq<Seq<char>>) -> nat
    decreases doc, 0nat,
{
    if route.len() == 0 {
        1
    } else {
        match doc {
            Json::Object(members) => reach_members(members, members.len(), route),
            Json::Array(items) => if route[0] == array_marker() {
                reach_items(items, items.len(), route.drop_first())
            } else {
                0
            },
            _ => 0,
        }
    }
}

/// The number of places that `route`, which is not at its end, leads to
/// through `member`.
pub open spec fn reach_member(member: JsonMember, route: Seq<Seq<char>>) -> nat
    recommends
        route.len() > 0,
    decreases member, 0nat,
{
    if route.len() == 0 {
        0
    } else {
        let below = reach(member.value, route.drop_first());
        (if member.key == route[0] {
            below
        } else {
            0
        }) + (if route[0] == wildcard() {
            below
        } else {
            0
        })
    }
}

/// The number of places that `route` leads to through the first `n` members.
pub open spec fn reach_members(members: Seq<JsonMember>, n: nat, route: Seq<Seq<char>>) -> nat
    decreases members, n,
{
    if n == 0 || n > members.len() {
        0
    } else {
        reach_members(members, (n - 1) as nat, route) + reach_member(members[n - 1], route)
    }
}

/// The number of places that `route` leads to in the first `n` elements.
pub open spec fn reach_items(items: Seq<Json>, n: nat, route: Seq<Seq<char>>) -> nat
    decreases items, n,
{
    if n == 0 || n > items.len() {
        0
    } else {
        reach_items(items, (n - 1) as nat, route) + reach(items[n - 1], route)
    }
}

/// The number of triples of `found` that are reported under `name`.
pub open spec fn count_named(found: Seq<Triple>, name: Seq<char>) -> nat
    decreases found.len(),
{
    if found.len() == 0 {
        0
    } else {
        count_named(found.drop_last(), name) + if found.last().pattern == name {
            1nat
        } else {
            0nat
        }
    }
}

/// The places that the patterns of `entries` with the name `name` lead to in
/// `doc`, summed.
pub open spec fn total_reach(doc: Json, entries: Seq<Pattern>, name: Seq<char>) -> nat
    decreases entries.len(),
{
    if entries.len() == 0 {
        0
    } else {
        total_reach(doc, entries.drop_last(), name) + if entries.last().name == name {
            reach(doc, entries.last().route)
        } else {
            0
        }
    }
}

spec fn ending(entries: Seq<Pattern>, name: Seq<char>) -> nat
    decreases entries.len(),
{
    if entries.len() == 0 {
        0
    } else {
        ending(entries.drop_last(), name) + if entries.last().name == name
            && entries.last().route.len() == 0 {
            1nat
        } else {
            0nat
        }
    }
}

spec fn through_member(member: JsonMember, entries: Seq<Pattern>, name: Seq<char>) -> nat
    decreases entries.len(),
{
    if entries.len() == 0 {
        0
    } else {
        through_member(member, entries.drop_last(), name) + if entries.last().name == name {
            reach_member(member, entries.last().route)
        } else {
            0
        }
    }
}

spec fn through_members(members: Seq<JsonMember>, n: nat, entries: Seq<Pattern>, name: Seq<char>) -> nat
    decreases n,
{
    if n == 0 || n > members.len() {
        0
    } else {
        through_members(members, (n - 1) as nat, entries, name) + through_member(
            members[n - 1],
            entries,
            name,
        )
    }
}

spec fn through_items(items: Seq<Json>, n: nat, entries: Seq<Pattern>, name: Seq<char>) -> nat
    decreases n,
{
    if n == 0 || n > items.len() {
        0
    } else {
        through_items(items, (n - 1) as nat, entries, name) + total_reach(
            items[n - 1],
            entries,
            name,
        )
    }
}

proof fn lemma_count_add(a: Seq<Triple>, b: Seq<Triple>, name: Seq<char>)
    ensures
        count_named(a + b, name) == count_named(a, name) + count_named(b, name),
    decreases b.len(),
{
    if b.len() == 0 {
        assert(a + b =~= a);
    } else {
        lemma_count_add(a, b.drop_last(), name);
        assert((a + b).drop_last() =~= a + b.drop_last());
    }
}

proof fn lemma_count_emitted(entries: Seq<Pattern>, path: Seq<char>, value: Seq<char>, name: Seq<char>)
    ensures
        count_named(emitted(terminal_names(entries), path, value), name) == ending(entries, name),
    decreases entries.len(),
{
    if entries.len() > 0 {
        let before = entries.drop_last();
        lemma_count_emitted(before, path, value, name);
        if entries.last().route.len() == 0 {
            let names = terminal_names(entries);
            assert(names == terminal_names(before).push(entries.last().name));
            assert(emitted(names, path, value).drop_last() =~= emitted(
                terminal_names(before),
                path,
                value,
            ));
        }
    }
}

proof fn lemma_total_push(doc: Json, entries: Seq<Pattern>, added: Pattern, name: Seq<char>)
    ensures
        total_reach(doc, entries.push(added), name) == total_reach(doc, entries, name) + if added.name
            == name {
            reach(doc, added.route)
        } else {
            0
        },
{
    assert(entries.push(added).drop_last() =~= entries);
}

proof fn lemma_through_member(member: JsonMember, entries: Seq<Pattern>, name: Seq<char>)
    ensures
        total_reach(member.value, residual(entries, member.key), name) + total_reach(
            member.value,
            residual(entries, wildcard()),
            name,
        ) == through_member(member, entries, name),
    decreases entries.len(),
{
    if entries.len() > 0 {
        let before = entries.drop_last();
        let last = entries.last();
        lemma_through_member(member, before, name);
        if last.route.len() > 0 {
            let rest = Pattern { route: last.route.drop_first(), name: last.name };
            if last.route[0] == member.key {
                lemma_total_push(member.value, residual(before, member.key), rest, name);
            }
            if last.route[0] == wildcard() {
                lemma_total_push(member.value, residual(before, wildcard()), rest, name);
            }
        }
    }
}

proof fn lemma_members_push(
    members: Seq<JsonMember>,
    n: nat,
    entries: Seq<Pattern>,
    added: Pattern,
    name: Seq<char>,
)
    requires
        n <= members.len(),
    ensures
        through_members(members, n, entries.push(added), name) == through_members(
            members,
            n,
            entries,
            name,
        ) + if added.name == name && added.route.len() > 0 {
            reach_members(members, n, added.route)
        } else {
            0
        },
    decreases n,
{
    if n > 0 {
        lemma_members_push(members, (n - 1) as nat, entries, added, name);
        assert(entries.push(added).drop_last() =~= entries);
    }
}

proof fn lemma_items_push(
    items: Seq<Json>,
    n: nat,
    entries: Seq<Pattern>,
    added: Pattern,
    name: Seq<char>,
)
    requires
        n <= items.len(),
    ensures
        through_items(items, n, entries.push(added), name) == through_items(
            items,
            n,
            entries,
            name,
        ) + if added.name == name {
            reach_items(items, n, added.route)
        } else {
            0
        },
    decreases n,
{
    if n > 0 {
        lemma_items_push(items, (n - 1) as nat, entries, added, name);
        lemma_total_push(items[n - 1], entries, added, name);
    }
}

proof fn lemma_members_none(members: Seq<JsonMember>, n: nat, name: Seq<char>)
    ensures
        through_members(members, n, Seq::empty(), name) == 0,
    decreases n,
{
    if n > 0 && n <= members.len() {
        lemma_members_none(members, (n - 1) as nat, name);
    }
}

proof fn lemma_items_none(items: Seq<Json>, n: nat, name: Seq<char>)
    ensures
        through_items(items, n, Seq::empty(), name) == 0,
    decreases n,
{
    if n > 0 && n <= items.len() {
        lemma_items_none(items, (n - 1) as nat, name);
    }
}

proof fn lemma_object_total(members: Seq<JsonMember>, entries: Seq<Pattern>, name: Seq<char>)
    ensures
        ending(entries, name) + through_members(members, members.len(), entries, name)
            == total_reach(Json::Object(members), entries, name),
    decreases entries.len(),
{
    if entries.len() == 0 {
        lemma_members_none(members, members.len(), name);
        assert(entries =~= Seq::empty());
    } else {
        let before = entries.drop_last();
        let last = entries.last();
        assert(before.push(last) =~= entries);
        lemma_object_total(members, before, name);
        lemma_members_push(members, members.len(), before, last, name);
    }
}

proof fn lemma_array_total(items: Seq<Json>, entries: Seq<Pattern>, name: Seq<char>)
    ensures
        ending(entries, name) + through_items(
            items,
            items.len(),
            residual(entries, array_marker()),
            name,
        ) == total_reach(Json::Array(items), entries, name),
    decreases entries.len(),
{
    if entries.len() == 0 {
        lemma_items_none(items, items.len(), name);
        assert(residual(entries, array_marker()) =~= Seq::empty());
    } else {
        let before = entries.drop_last();
        let last = entries.last();
        lemma_array_total(items, before, name);
        if last.route.len() > 0 && last.route[0] == array_marker() {
            let rest = Pattern { route: last.route.drop_first(), name: last.name };
            lemma_items_push(items, items.len(), residual(before, array_marker()), rest, name);
        }
    }
}

proof fn lemma_plain_total(doc: Json, entries: Seq<Pattern>, name: Seq<char>)
    requires
        !(doc is Object),
        !(doc is Array),
    ensures
        ending(entries, name) == total_reach(doc, entries, name),
    decreases entries.len(),
{
    if entries.len() > 0 {
        lemma_plain_total(doc, entries.drop_last(), name);
    }
}

/// Extraction reports each reached place: in every document, the number of
/// triples under `name` is the number of places that the patterns of that
/// name lead to.
pub proof fn lemma_triples_count_places(
    doc: Json,
    entries: Seq<Pattern>,
    path: Seq<char>,
    name: Seq<char>,
)
    ensures
        count_named(extract_at(doc, entries, path), name) == total_reach(doc, entries, name),
    decreases doc, 0nat,
{
    let here = emitted(terminal_names(entries), path, rendered(doc));
    lemma_count_emitted(entries, path, rendered(doc), name);
    match doc {
        Json::Object(members) => {
            let below = extract_members(members, members.len(), entries, path);
            lemma_count_add(here, below, name);
            lemma_members_count(members, members.len(), entries, path, name);
            lemma_object_total(members, entries, name);
        },
        Json::Array(items) => {
            let inner = residual(entries, array_marker());
            let below = extract_items(items, items.len(), inner, path);
            lemma_count_add(here, below, name);
            lemma_items_count(items, items.len(), inner, path, name);
            lemma_array_total(items, entries, name);
        },
        _ => {
            assert(here + Seq::<Triple>::empty() =~= here);
            lemma_plain_total(doc, entries, name);
        },
    }
}

proof fn lemma_members_count(
    members: Seq<JsonMember>,
    n: nat,
    entries: Seq<Pattern>,
    path: Seq<char>,
    name: Seq<char>,
)
    requires
        n <= members.len(),
    ensures
        count_named(extract_members(members, n, entries, path), name) == through_members(
            members,
            n,
            entries,
            name,
        ),
    decreases members, n,
{
    if n > 0 {
        let member = members[n - 1];
        let at = extend_dotted(path, member.key);
        let earlier = extract_members(members, (n - 1) as nat, entries, path);
        let named = extract_at(member.value, residual(entries, member.key), at);
        let starred = extract_at(member.value, residual(entries, wildcard()), at);
        lemma_members_count(members, (n - 1) as nat, entries, path, name);
        lemma_triples_count_places(member.value, residual(entries, member.key), at, name);
        lemma_triples_count_places(member.value, residual(entries, wildcard()), at, name);
        lemma_count_add(earlier, named, name);
        lemma_count_add(earlier + named, starred, name);
        lemma_through_member(member, entries, name);
    }
}

proof fn lemma_items_count(
    items: Seq<Json>,
    n: nat,
    entries: Seq<Pattern>,
    path: Seq<char>,
    name: Seq<char>,
)
    requires
        n <= items.len(),
    ensures
        count_named(extract_items(items, n, entries, path), name) == through_items(
            items,
            n,
            entries,
            name,
        ),
    decreases items, n,
{
    if n > 0 {
        let earlier = extract_items(items, (n - 1) as nat, entries, path);
        let at = item_path(path, (n - 1) as nat);
        lemma_items_count(items, (n - 1) as nat, entries, path, name);
        lemma_triples_count_places(items[n - 1], entries, at, name);
        lemma_count_add(earlier, extract_at(items[n - 1], entries, at), name);
    }
}

/// Where one pattern alone carries its name, the places summed for that name
/// are those of its route.
pub proof fn lemma_single_name(doc: Json, entries: Seq<Pattern>, index: int)
    requires
        0 <= index < entries.len(),
        forall|j: int|
            0 <= j < entries.len() && j != index ==> (#[trigger] entries[j]).name
                != entries[index].name,
    ensures
        total_reach(doc, entries, entries[index].name) == reach(doc, entries[index].route),
    decreases entries.len(),
{
    let name = entries[index].name;
    let before = entries.drop_last();
    if index == entries.len() - 1 {
        lemma_other_names(doc, before, name);
    } else {
        assert(before[index] == entries[index]);
        assert forall|j: int| 0 <= j < before.len() && j != index implies (#[trigger] before[j]).name
            != before[index].name by {
            assert(before[j] == entries[j]);
        }
        lemma_single_name(doc, before, index);
        assert(entries.last() == entries[entries.len() - 1]);
    }
}

proof fn lemma_other_names(doc: Json, entries: Seq<Pattern>, name: Seq<char>)
    requires
        forall|j: int| 0 <= j < entries.len() ==> (#[trigger] entries[j]).name != name,
    ensures
        total_reach(doc, entries, name) == 0,
    decreases entries.len(),
{
    if entries.len() > 0 {
        let before = entries.drop_last();
        assert forall|j: int| 0 <= j < before.len() implies (#[trigger] before[j]).name != name by {
            assert(before[j] == entries[j]);
        }
        lemma_other_names(doc, before, name);
        assert(entries.last() == entries[entries.len() - 1]);
    }
}

} // verus!
