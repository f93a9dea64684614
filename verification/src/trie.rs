//! The pattern trie: field specifications compiled against a schema, and the
//! extraction of every matching value from a JSON document.

use vstd::prelude::*;
use crate::json::{lemma_array_view, lemma_object_view, rendered, Json, JsonDoc, JsonMember};
use crate::schema::{array_in, FieldType, Schema};
use crate::text::{decimal, decimal_text, join, join_text, lemma_strs_push, same_text, strs};

verus! {

/// A compiled field specification: the segments to follow through a
/// document, array markers included, and the name to report matches under.
pub ghost struct Pattern {
    pub route: Seq<Seq<char>>,
    pub name: Seq<char>,
}

/// One extracted value: the pattern that matched, the concrete path of the
/// value in the document, and its value string.
pub ghost struct Triple {
    pub pattern: Seq<char>,
    pub path: Seq<char>,
    pub value: Seq<char>,
}

/// One extracted value.
#[derive(Debug)]
pub struct Extraction {
    pub pattern_name: String,
    pub concrete_path: String,
    pub value: String,
}

impl View for Extraction {
    type V = Triple;

    open spec fn view(&self) -> Triple {
        Triple { pattern: self.pattern_name@, path: self.concrete_path@, value: self.value@ }
    }
}

/// The triples that a sequence of extractions holds.
pub open spec fn triples(v: Seq<Extraction>) -> Seq<Triple> {
    Seq::new(v.len(), |i: int| v[i]@)
}

/// The reserved segment that stands for "each element of this array".
pub open spec fn array_marker() -> Seq<char> {
    "[]"@
}

/// The reserved segment that matches every key of an object.
pub open spec fn wildcard() -> Seq<char> {
    "*"@
}

/// `path` extended by an object key: the key alone at the top, else a dot
/// and the key.
pub open spec fn extend_dotted(path: Seq<char>, segment: Seq<char>) -> Seq<char> {
    if path.len() == 0 {
        segment
    } else {
        path.push('.') + segment
    }
}

/// `path` extended by the index of an array element, in square brackets.
pub open spec fn item_path(path: Seq<char>, index: nat) -> Seq<char> {
    path.push('[') + decimal_text(index) + seq![']']
}

/// The schema path that `segments` accumulate to.
pub open spec fn dotted(segments: Seq<Seq<char>>) -> Seq<char>
    decreases segments.len(),
{
    if segments.len() == 0 {
        Seq::empty()
    } else {
        extend_dotted(dotted(segments.drop_last()), segments.last())
    }
}

/// The route of a field specification: its segments, each followed by an
/// array marker where the schema declares the path so far an array.
pub open spec fn route_of(segments: Seq<Seq<char>>, schema: Seq<(Seq<char>, FieldType)>) -> Seq<
    Seq<char>,
>
    decreases segments.len(),
{
    if segments.len() == 0 {
        Seq::empty()
    } else {
        let route = route_of(segments.drop_last(), schema).push(segments.last());
        if array_in(schema, dotted(segments)) {
            route.push(array_marker())
        } else {
            route
        }
    }
}

/// The texts of a list of field specifications.
pub open spec fn spec_texts(specs: Seq<Vec<String>>) -> Seq<Seq<Seq<char>>> {
    Seq::new(specs.len(), |i: int| strs(specs[i]@))
}

/// The patterns that a list of field specifications compiles to, in order:
/// empty specifications and repetitions of an earlier one are left out.
pub open spec fn compiled(specs: Seq<Seq<Seq<char>>>, schema: Seq<(Seq<char>, FieldType)>) -> Seq<
    Pattern,
>
    decreases specs.len(),
{
    if specs.len() == 0 {
        Seq::empty()
    } else {
        let before = compiled(specs.drop_last(), schema);
        let last = specs.last();
        if last.len() == 0 || specs.drop_last().contains(last) {
            before
        } else {
            before.push(Pattern { route: route_of(last, schema), name: join_text(last, '.') })
        }
    }
}

/// The names of the patterns of `entries` whose route is at its end, in order.
pub open spec fn terminal_names(entries: Seq<Pattern>) -> Seq<Seq<char>>
    decreases entries.len(),
{
    if entries.len() == 0 {
        Seq::empty()
    } else {
        let before = terminal_names(entries.drop_last());
        if entries.last().route.len() == 0 {
            before.push(entries.last().name)
        } else {
            before
        }
    }
}

/// The patterns of `entries` whose route begins with `segment`, each with
/// the rest of its route, in order.
pub open spec fn residual(entries: Seq<Pattern>, segment: Seq<char>) -> Seq<Pattern>
    decreases entries.len(),
{
    if entries.len() == 0 {
        Seq::empty()
    } else {
        let before = residual(entries.drop_last(), segment);
        let last = entries.last();
        if last.route.len() > 0 && last.route[0] == segment {
            before.push(Pattern { route: last.route.drop_first(), name: last.name })
        } else {
            before
        }
    }
}

/// One triple per name, all for the same place and value.
pub open spec fn emitted(names: Seq<Seq<char>>, path: Seq<char>, value: Seq<char>) -> Seq<Triple> {
    Seq::new(names.len(), |i: int| Triple { pattern: names[i], path, value })
}

/// Every triple that `entries` match in `doc`, which stands at `path`:
/// first those of the patterns that end here, then those below, members in
/// document order and elements in index order.
pub open spec fn extract_at(doc: Json, entries: Seq<Pattern>, path: Seq<char>) -> Seq<Triple>
    decreases doc, 0nat,
{
    emitted(terminal_names(entries), path, rendered(doc)) + (match doc {
        Json::Object(members) => extract_members(members, members.len(), entries, path),
        Json::Array(items) => extract_items(
            items,
            items.len(),
            residual(entries, array_marker()),
            path,
        ),
        _ => Seq::empty(),
    })
}

/// The triples matched in the first `n` members of an object at `path`: under
/// each member, first by the patterns that name its key, then by those with
/// a wildcard here.
pub open spec fn extract_members(
    members: Seq<JsonMember>,
    n: nat,
    entries: Seq<Pattern>,
    path: Seq<char>,
) -> Seq<Triple>
    decreases members, n,
{
    if n == 0 || n > members.len() {
        Seq::empty()
    } else {
        let key = members[n - 1].key;
        let value = members[n - 1].value;
        let below = extend_dotted(path, key);
        extract_members(members, (n - 1) as nat, entries, path) + extract_at(
            value,
            residual(entries, key),
            below,
        ) + extract_at(value, residual(entries, wildcard()), below)
    }
}

/// The triples matched in the first `n` elements of an array at `path`.
pub open spec fn extract_items(items: Seq<Json>, n: nat, entries: Seq<Pattern>, path: Seq<char>) -> Seq<
    Triple,
>
    decreases items, n,
{
    if n == 0 || n > items.len() {
        Seq::empty()
    } else {
        extract_items(items, (n - 1) as nat, entries, path) + extract_at(
            items[n - 1],
            entries,
            item_path(path, (n - 1) as nat),
        )
    }
}

/// Without patterns nothing is extracted.
pub proof fn lemma_extract_nothing(doc: Json, path: Seq<char>)
    ensures
        extract_at(doc, Seq::empty(), path) == Seq::<Triple>::empty(),
    decreases doc, 0nat,
{
    let none = Seq::<Pattern>::empty();
    assert(emitted(terminal_names(none), path, rendered(doc)) =~= Seq::empty());
    match doc {
        Json::Object(members) => {
            lemma_members_nothing(members, members.len(), path);
        },
        Json::Array(items) => {
            lemma_items_nothing(items, items.len(), path);
        },
        _ => {},
    }
}

proof fn lemma_members_nothing(members: Seq<JsonMember>, n: nat, path: Seq<char>)
    ensures
        extract_members(members, n, Seq::empty(), path) == Seq::<Triple>::empty(),
    decreases members, n,
{
    if n == 0 || n > members.len() {
    } else {
        let none = Seq::<Pattern>::empty();
        let key = members[n - 1].key;
        lemma_members_nothing(members, (n - 1) as nat, path);
        lemma_extract_nothing(members[n - 1].value, extend_dotted(path, key));
        assert(residual(none, key) == none);
        assert(residual(none, wildcard()) == none);
    }
}

proof fn lemma_items_nothing(items: Seq<Json>, n: nat, path: Seq<char>)
    ensures
        extract_items(items, n, Seq::empty(), path) == Seq::<Triple>::empty(),
    decreases items, n,
{
    if n == 0 || n > items.len() {
    } else {
        lemma_items_nothing(items, (n - 1) as nat, path);
        lemma_extract_nothing(items[n - 1], item_path(path, (n - 1) as nat));
    }
}

/// What `residual` and `terminal_names` make of one more pattern.
pub proof fn lemma_push_pattern(entries: Seq<Pattern>, added: Pattern, segment: Seq<char>)
    ensures
        terminal_names(entries.push(added)) == if added.route.len() == 0 {
            terminal_names(entries).push(added.name)
        } else {
            terminal_names(entries)
        },
        residual(entries.push(added), segment) == if added.route.len() > 0 && added.route[0]
            == segment {
            residual(entries, segment).push(
                Pattern { route: added.route.drop_first(), name: added.name },
            )
        } else {
            residual(entries, segment)
        },
{
    assert(entries.push(added).drop_last() =~= entries);
}

/// `path` extended by the key of an object member.
pub fn extend_path(path: &str, key: &str) -> (out: String)
    ensures
        out@ == extend_dotted(path@, key@),
{
    if path.is_empty() {
        key.to_owned()
    } else {
        let mut out = path.to_owned();
        out.push('.');
        out.append(key);
        out
    }
}

/// `path` extended by the index of an array element.
pub fn index_path(path: &str, index: usize) -> (out: String)
    ensures
        out@ == item_path(path@, index as nat),
{
    let mut out = path.to_owned();
    out.push('[');
    let digits = decimal(index as u64);
    out.append(digits.as_str());
    out.push(']');
    assert(out@ =~= item_path(path@, index as nat));
    out
}

/// Whether two field specifications have the same segments.
pub fn same_segments(a: &Vec<String>, b: &Vec<String>) -> (r: bool)
    ensures
        r == (strs(a@) == strs(b@)),
{
    if a.len() != b.len() {
        assert(strs(a@).len() != strs(b@).len());
        return false;
    }
    let mut i: usize = 0;
    while i < a.len()
        invariant
            i <= a.len() == b.len(),
            forall|k: int| 0 <= k < i ==> a@[k]@ == b@[k]@,
        decreases a.len() - i,
    {
        if !same_text(a[i].as_str(), b[i].as_str()) {
            assert(strs(a@)[i as int] != strs(b@)[i as int]);
            return false;
        }
        i += 1;
    }
    assert(strs(a@) =~= strs(b@));
    true
}

/// A child of a trie node: the segment that leads to it, and the node.
pub struct Child {
    segment: String,
    node: PatternTrieNode,
}

/// A node of the pattern trie.
pub struct PatternTrieNode {
    children: Vec<Child>,
    terminating_patterns: Vec<String>,
}

/// Whether one of `children` is reached by `segment`.
pub closed spec fn has_child(children: Seq<Child>, segment: Seq<char>) -> bool {
    exists|i: int| 0 <= i < children.len() && (#[trigger] children[i]).segment@ == segment
}

impl PatternTrieNode {
    /// Whether the node stands for exactly the patterns `entries`: it ends
    /// those whose route is at its end, and leads by each first segment to a
    /// child that stands for the patterns that begin with it.
    pub closed spec fn holds(&self, entries: Seq<Pattern>) -> bool
        decreases self,
    {
        &&& strs(self.terminating_patterns@) == terminal_names(entries)
        &&& forall|i: int, j: int|
            0 <= i < j < self.children@.len() ==> (#[trigger] self.children@[i]).segment@ != (
            #[trigger] self.children@[j]).segment@
        &&& forall|i: int|
            0 <= i < self.children@.len() ==> (#[trigger] self.children@[i]).node.holds(
                residual(entries, self.children@[i].segment@),
            )
        &&& forall|segment: Seq<char>|
            (#[trigger] residual(entries, segment)).len() > 0 ==> has_child(
                self.children@,
                segment,
            )
    }

    /// The node that stands for no pattern.
    fn empty() -> (node: PatternTrieNode)
        ensures
            node.holds(Seq::empty()),
    {
        let node = PatternTrieNode { children: Vec::new(), terminating_patterns: Vec::new() };
        assert(strs(node.terminating_patterns@) =~= Seq::empty());
        assert forall|segment: Seq<char>| (#[trigger] residual(Seq::empty(), segment)).len()
            == 0 by {}
        node
    }

    /// The position of the child that `segment` leads to.
    fn find_child(&self, segment: &str) -> (r: Option<usize>)
        ensures
            match r {
                Some(i) => i < self.children@.len() && self.children@[i as int].segment@
                    == segment@,
                None => !has_child(self.children@, segment@),
            },
    {
        let mut i: usize = 0;
        while i < self.children.len()
            invariant
                i <= self.children.len(),
                forall|k: int| 0 <= k < i ==> (#[trigger] self.children@[k]).segment@ != segment@,
            decreases self.children.len() - i,
        {
            if same_text(self.children[i].segment.as_str(), segment) {
                return Some(i);
            }
            i += 1;
        }
        None
    }

    /// Adds the pattern `name` with the route `route[from..]`.
    fn insert(
        self,
        route: &Vec<String>,
        from: usize,
        name: &str,
        Ghost(entries): Ghost<Seq<Pattern>>,
    ) -> (node: PatternTrieNode)
        requires
            self.holds(entries),
            from <= route.len(),
        ensures
            node.holds(
                entries.push(
                    Pattern {
                        route: strs(route@).subrange(from as int, route.len() as int),
                        name: name@,
                    },
                ),
            ),
        decreases route.len() - from,
    {
        let ghost added = Pattern {
            route: strs(route@).subrange(from as int, route.len() as int),
            name: name@,
        };
        let ghost after = entries.push(added);
        let mut node = self;
        if from == route.len() {
            let owned = name.to_owned();
            proof {
                lemma_strs_push(node.terminating_patterns@, owned);
                lemma_push_pattern(entries, added, Seq::empty());
                assert forall|segment: Seq<char>| #[trigger]
                    residual(after, segment) == residual(entries, segment) by {
                    lemma_push_pattern(entries, added, segment);
                }
            }
            node.terminating_patterns.push(owned);
            return node;
        }
        let ghost head = route@[from as int]@;
        let ghost rest = Pattern {
            route: strs(route@).subrange(from + 1, route.len() as int),
            name: name@,
        };
        proof {
            assert(added.route[0] == head);
            assert(added.route.drop_first() =~= rest.route);
            lemma_push_pattern(entries, added, head);
            assert forall|segment: Seq<char>| segment != head implies #[trigger] residual(
                after,
                segment,
            ) == residual(entries, segment) by {
                lemma_push_pattern(entries, added, segment);
            }
        }
        let ghost before = node.children@;
        match node.find_child(route[from].as_str()) {
            Some(i) => {
                let child = node.children.remove(i);
                let grown = child.node.insert(
                    route,
                    from + 1,
                    name,
                    Ghost(residual(entries, head)),
                );
                node.children.insert(i, Child { segment: child.segment, node: grown });
                proof {
                    assert(node.children@.len() == before.len());
                    assert forall|k: int| 0 <= k < before.len() implies (#[trigger] node.children@[k]).segment@
                        == before[k].segment@ by {}
                    assert forall|k: int| 0 <= k < before.len() && k != i implies #[trigger] node.children@[k]
                        == before[k] by {}
                    assert forall|segment: Seq<char>|
                        (#[trigger] residual(after, segment)).len() > 0 implies has_child(
                        node.children@,
                        segment,
                    ) by {
                        if segment == head {
                            assert(node.children@[i as int].segment@ == head);
                        } else {
                            assert(has_child(before, segment));
                            let k = choose|k: int|
                                0 <= k < before.len() && (#[trigger] before[k]).segment@
                                    == segment;
                            assert(node.children@[k].segment@ == segment);
                        }
                    }
                }
            },
            None => {
                let fresh = PatternTrieNode::empty();
                proof {
                    assert(residual(entries, head).len() == 0);
                    assert(residual(entries, head) =~= Seq::empty());
                }
                let grown = fresh.insert(route, from + 1, name, Ghost(Seq::empty()));
                node.children.push(Child { segment: route[from].clone(), node: grown });
                proof {
                    let last = before.len() as int;
                    assert(Seq::<Pattern>::empty().push(rest) =~= residual(after, head));
                    assert forall|k: int| 0 <= k < before.len() implies #[trigger] node.children@[k]
                        == before[k] by {}
                    assert forall|segment: Seq<char>|
                        (#[trigger] residual(after, segment)).len() > 0 implies has_child(
                        node.children@,
                        segment,
                    ) by {
                        if segment == head {
                            assert(node.children@[last].segment@ == head);
                        } else {
                            assert(has_child(before, segment));
                            let k = choose|k: int|
                                0 <= k < before.len() && (#[trigger] before[k]).segment@
                                    == segment;
                            assert(node.children@[k].segment@ == segment);
                        }
                    }
                }
            },
        }
        node
    }

    /// Whether the trie has a node at the end of `route`, so that a walk
    /// follows the route as far as the document goes.
    pub closed spec fn leads(&self, route: Seq<Seq<char>>) -> bool
        decreases route.len(),
    {
        route.len() == 0 || exists|i: int|
            0 <= i < self.children@.len() && (#[trigger] self.children@[i]).segment@ == route[0]
                && self.children@[i].node.leads(route.drop_first())
    }

    /// Makes sure that the trie has the nodes of `route[from..]`, without
    /// a pattern that ends there.
    fn descend(self, route: &Vec<String>, from: usize, Ghost(entries): Ghost<Seq<Pattern>>) -> (node:
        PatternTrieNode)
        requires
            self.holds(entries),
            from <= route.len(),
        ensures
            node.holds(entries),
            node.leads(strs(route@).subrange(from as int, route.len() as int)),
        decreases route.len() - from,
    {
        let ghost rest = strs(route@).subrange(from as int, route.len() as int);
        let mut node = self;
        if from == route.len() {
            return node;
        }
        let ghost head = route@[from as int]@;
        let ghost before = node.children@;
        proof {
            assert(rest[0] == head);
            assert(rest.drop_first() =~= strs(route@).subrange(from + 1, route.len() as int));
        }
        match node.find_child(route[from].as_str()) {
            Some(i) => {
                let child = node.children.remove(i);
                let grown = child.node.descend(route, from + 1, Ghost(residual(entries, head)));
                node.children.insert(i, Child { segment: child.segment, node: grown });
                proof {
                    assert(node.children@.len() == before.len());
                    assert forall|k: int| 0 <= k < before.len() implies (#[trigger] node.children@[k]).segment@
                        == before[k].segment@ by {}
                    assert forall|k: int| 0 <= k < before.len() && k != i implies #[trigger] node.children@[k]
                        == before[k] by {}
                    assert forall|segment: Seq<char>|
                        (#[trigger] residual(entries, segment)).len() > 0 implies has_child(
                        node.children@,
                        segment,
                    ) by {
                        assert(has_child(before, segment));
                        let k = choose|k: int|
                            0 <= k < before.len() && (#[trigger] before[k]).segment@ == segment;
                        assert(node.children@[k].segment@ == segment);
                    }
                    assert(node.children@[i as int].segment@ == rest[0]);
                }
            },
            None => {
                let fresh = PatternTrieNode::empty();
                proof {
                    assert(residual(entries, head).len() == 0);
                    assert(residual(entries, head) =~= Seq::empty());
                }
                let grown = fresh.descend(route, from + 1, Ghost(Seq::empty()));
                node.children.push(Child { segment: route[from].clone(), node: grown });
                proof {
                    let last = before.len() as int;
                    assert forall|k: int| 0 <= k < before.len() implies #[trigger] node.children@[k]
                        == before[k] by {}
                    assert forall|a: int, b: int| 0 <= a < b < node.children@.len() implies (
                    #[trigger] node.children@[a]).segment@ != (#[trigger] node.children@[b]).segment@ by {
                        if b == last {
                            assert(node.children@[a] == before[a]);
                            assert(before[a].segment@ != head);
                        }
                    }
                    assert forall|segment: Seq<char>|
                        (#[trigger] residual(entries, segment)).len() > 0 implies has_child(
                        node.children@,
                        segment,
                    ) by {
                        assert(has_child(before, segment));
                        let k = choose|k: int|
                            0 <= k < before.len() && (#[trigger] before[k]).segment@ == segment;
                        assert(node.children@[k].segment@ == segment);
                    }
                    assert(node.children@[last].segment@ == rest[0]);
                }
            },
        }
        node
    }

    /// Appends to `results` every triple that the node's patterns match in
    /// `doc`, which stands at `path`.
    fn traverse(
        &self,
        doc: &JsonDoc,
        path: String,
        results: &mut Vec<Extraction>,
        Ghost(entries): Ghost<Seq<Pattern>>,
    )
        requires
            self.holds(entries),
        ensures
            triples(final(results)@) == triples(old(results)@) + extract_at(doc@, entries, path@),
        decreases doc,
    {
        let ghost start = triples(results@);
        let ghost here = emitted(terminal_names(entries), path@, rendered(doc@));
        if self.terminating_patterns.len() > 0 {
            let value = doc.render();
            let mut k: usize = 0;
            while k < self.terminating_patterns.len()
                invariant
                    k <= self.terminating_patterns.len(),
                    strs(self.terminating_patterns@) == terminal_names(entries),
                    value@ == rendered(doc@),
                    here == emitted(terminal_names(entries), path@, rendered(doc@)),
                    triples(results@) == start + here.take(k as int),
                decreases self.terminating_patterns.len() - k,
            {
                let ghost so_far = results@;
                let found = Extraction {
                    pattern_name: self.terminating_patterns[k].clone(),
                    concrete_path: path.clone(),
                    value: value.clone(),
                };
                results.push(found);
                proof {
                    assert(strs(self.terminating_patterns@)[k as int]
                        == self.terminating_patterns@[k as int]@);
                    assert(found@ == here[k as int]);
                    assert(triples(results@) =~= triples(so_far).push(found@));
                    assert(here.take(k + 1) =~= here.take(k as int).push(here[k as int]));
                    assert(triples(results@) =~= start + here.take(k + 1));
                }
                k += 1;
            }
            assert(here.take(self.terminating_patterns.len() as int) =~= here);
        } else {
            assert(strs(self.terminating_patterns@).len() == 0);
            assert(start + here =~= start);
        }
        assert(triples(results@) == start + here);
        match doc {
            JsonDoc::Object(members) => {
                let ghost model = doc@->Object_0;
                proof {
                    lemma_object_view(*doc);
                }
                let any = self.find_child("*");
                let mut n: usize = 0;
                while n < members.len()
                    invariant
                        n <= members.len(),
                        self.holds(entries),
                        doc@ == Json::Object(model),
                        model.len() == members@.len(),
                        forall|k: int|
                            0 <= k < members@.len() ==> #[trigger] model[k] == (JsonMember {
                                key: members@[k].key@,
                                value: members@[k].value@,
                            }),
                        forall|k: int|
                            0 <= k < members@.len() ==> decreases_to!(doc => #[trigger] members@[k]),
                        match any {
                            Some(i) => i < self.children@.len() && self.children@[i as int].segment@
                                == wildcard(),
                            None => !has_child(self.children@, wildcard()),
                        },
                        triples(results@) == start + here + extract_members(
                            model,
                            n as nat,
                            entries,
                            path@,
                        ),
                    decreases members.len() - n,
                {
                    let member = &members[n];
                    let ghost so_far = triples(results@);
                    let ghost below = extend_dotted(path@, member.key@);
                    let ghost named = extract_at(member.value@, residual(entries, member.key@), below);
                    let ghost starred = extract_at(
                        member.value@,
                        residual(entries, wildcard()),
                        below,
                    );
                    assert(model[n as int].key == member.key@ && model[n as int].value
                        == member.value@);
                    match self.find_child(member.key.as_str()) {
                        Some(i) => {
                            let below_path = extend_path(path.as_str(), member.key.as_str());
                            self.children[i].node.traverse(
                                &member.value,
                                below_path,
                                results,
                                Ghost(residual(entries, member.key@)),
                            );
                        },
                        None => {
                            proof {
                                assert(residual(entries, member.key@) =~= Seq::empty());
                                lemma_extract_nothing(member.value@, below);
                                assert(so_far + named =~= so_far);
                            }
                        },
                    }
                    assert(triples(results@) == so_far + named);
                    match any {
                        Some(i) => {
                            let below_path = extend_path(path.as_str(), member.key.as_str());
                            self.children[i].node.traverse(
                                &member.value,
                                below_path,
                                results,
                                Ghost(residual(entries, wildcard())),
                            );
                        },
                        None => {
                            proof {
                                assert(residual(entries, wildcard()) =~= Seq::empty());
                                lemma_extract_nothing(member.value@, below);
                                assert(so_far + named + starred =~= so_far + named);
                            }
                        },
                    }
                    proof {
                        assert(triples(results@) == so_far + named + starred);
                        assert(extract_members(model, (n + 1) as nat, entries, path@)
                            == extract_members(model, n as nat, entries, path@) + named
                            + starred);
                        assert(start + here + extract_members(model, n as nat, entries, path@)
                            + named + starred =~= start + here + extract_members(
                            model,
                            (n + 1) as nat,
                            entries,
                            path@,
                        ));
                    }
                    n += 1;
                }
                proof {
                    assert(start + here + extract_members(model, model.len(), entries, path@)
                        =~= start + extract_at(doc@, entries, path@));
                }
            },
            JsonDoc::Array(items) => {
                let ghost model = doc@->Array_0;
                proof {
                    lemma_array_view(*doc);
                }
                let ghost inner = residual(entries, array_marker());
                match self.find_child("[]") {
                    Some(i) => {
                        let mut n: usize = 0;
                        while n < items.len()
                            invariant
                                n <= items.len(),
                                i < self.children@.len(),
                                self.children@[i as int].node.holds(inner),
                                doc@ == Json::Array(model),
                                model.len() == items@.len(),
                                forall|k: int|
                                    0 <= k < items@.len() ==> #[trigger] model[k] == items@[k]@,
                                forall|k: int|
                                    0 <= k < items@.len() ==> decreases_to!(doc => #[trigger] items@[k]),
                                triples(results@) == start + here + extract_items(
                                    model,
                                    n as nat,
                                    inner,
                                    path@,
                                ),
                            decreases items.len() - n,
                        {
                            let ghost so_far = triples(results@);
                            let item_at = index_path(path.as_str(), n);
                            self.children[i].node.traverse(&items[n], item_at, results, Ghost(inner));
                            proof {
                                assert(start + here + extract_items(model, n as nat, inner, path@)
                                    + extract_at(items@[n as int]@, inner, item_path(path@, n as nat))
                                    =~= start + here + extract_items(
                                    model,
                                    (n + 1) as nat,
                                    inner,
                                    path@,
                                ));
                            }
                            n += 1;
                        }
                    },
                    None => {
                        proof {
                            assert(inner =~= Seq::empty());
                            lemma_items_nothing(model, model.len(), path@);
                        }
                    },
                }
                proof {
                    assert(start + here + extract_items(model, model.len(), inner, path@) =~= start
                        + extract_at(doc@, entries, path@));
                }
            },
            _ => {
                assert(start + here =~= start + extract_at(doc@, entries, path@));
            },
        }
    }
}

/// The route of a field specification under `schema`.
pub fn build_route(segments: &Vec<String>, schema: &Schema) -> (route: Vec<String>)
    ensures
        strs(route@) == route_of(strs(segments@), schema@),
{
    let mut route: Vec<String> = Vec::new();
    let mut schema_path = String::new();
    let mut i: usize = 0;
    assert(strs(route@) =~= Seq::empty());
    while i < segments.len()
        invariant
            i <= segments.len(),
            strs(route@) == route_of(strs(segments@).take(i as int), schema@),
            schema_path@ == dotted(strs(segments@).take(i as int)),
        decreases segments.len() - i,
    {
        proof {
            let next = strs(segments@).take(i + 1);
            assert(next.drop_last() =~= strs(segments@).take(i as int));
            assert(next.last() == segments@[i as int]@);
        }
        schema_path = extend_path(schema_path.as_str(), segments[i].as_str());
        let segment = segments[i].clone();
        proof {
            lemma_strs_push(route@, segment);
        }
        route.push(segment);
        if schema.is_array(schema_path.as_str()) {
            let marker = "[]".to_owned();
            proof {
                lemma_strs_push(route@, marker);
            }
            route.push(marker);
        }
        i += 1;
    }
    assert(strs(segments@).take(segments.len() as int) =~= strs(segments@));
    route
}

/// Whether the field specification at `index` repeats an earlier one.
fn seen_before(field_specs: &Vec<Vec<String>>, index: usize) -> (r: bool)
    requires
        index < field_specs.len(),
    ensures
        r == spec_texts(field_specs@).take(index as int).contains(
            spec_texts(field_specs@)[index as int],
        ),
{
    let ghost earlier = spec_texts(field_specs@).take(index as int);
    let ghost this = spec_texts(field_specs@)[index as int];
    let mut i: usize = 0;
    while i < index
        invariant
            i <= index < field_specs.len(),
            earlier == spec_texts(field_specs@).take(index as int),
            this == spec_texts(field_specs@)[index as int],
            forall|k: int| 0 <= k < i ==> earlier[k] != this,
        decreases index - i,
    {
        if same_segments(&field_specs[i], &field_specs[index]) {
            assert(earlier[i as int] == this);
            return true;
        }
        i += 1;
    }
    false
}

/// The compiled field specifications of one extraction run.
pub struct PatternTrie {
    root: PatternTrieNode,
    patterns: Ghost<Seq<Pattern>>,
}

impl View for PatternTrie {
    type V = Seq<Pattern>;

    closed spec fn view(&self) -> Seq<Pattern> {
        self.patterns@
    }
}

impl PatternTrie {
    #[verifier::type_invariant]
    spec fn well_formed(self) -> bool {
        self.root.holds(self.patterns@)
    }

    /// Compiles `field_specs` against `schema`. Each specification is reported
    /// under its segments joined by dots; an empty one, or one that repeats
    /// an earlier one, adds nothing.
    pub fn new(field_specs: &Vec<Vec<String>>, schema: &Schema) -> (trie: PatternTrie)
        ensures
            trie@ == compiled(spec_texts(field_specs@), schema@),
    {
        let mut root = PatternTrieNode::empty();
        let ghost mut entries = Seq::<Pattern>::empty();
        let mut i: usize = 0;
        while i < field_specs.len()
            invariant
                i <= field_specs.len(),
                root.holds(entries),
                entries == compiled(spec_texts(field_specs@).take(i as int), schema@),
            decreases field_specs.len() - i,
        {
            proof {
                let next = spec_texts(field_specs@).take(i + 1);
                assert(next.drop_last() =~= spec_texts(field_specs@).take(i as int));
                assert(next.last() == strs(field_specs@[i as int]@));
            }
            let spec = &field_specs[i];
            if spec.len() > 0 && !seen_before(field_specs, i) {
                let route = build_route(spec, schema);
                let name = join(spec, '.');
                root = root.insert(&route, 0, name.as_str(), Ghost(entries));
                proof {
                    assert(strs(route@).subrange(0, route.len() as int) =~= strs(route@));
                    entries = entries.push(Pattern { route: strs(route@), name: name@ });
                }
            }
            i += 1;
        }
        assert(spec_texts(field_specs@).take(field_specs.len() as int) =~= spec_texts(
            field_specs@,
        ));
        PatternTrie { root, patterns: Ghost(entries) }
    }

    /// Whether a walk of the trie follows `route`, whether or not a pattern
    /// ends there.
    pub closed spec fn walks(&self, route: Seq<Seq<char>>) -> bool {
        self.root.leads(route)
    }

    /// Makes the walk of a document follow the route of `segments` under
    /// `schema`, without reporting anything for it: the patterns, and with
    /// them what is extracted, stay as they are.
    pub fn force_descent(self, segments: &Vec<String>, schema: &Schema) -> (trie: PatternTrie)
        ensures
            trie@ == self@,
            trie.walks(route_of(strs(segments@), schema@)),
    {
        proof {
            use_type_invariant(&self);
        }
        let route = build_route(segments, schema);
        let PatternTrie { root, patterns } = self;
        let root = root.descend(&route, 0, Ghost(patterns@));
        assert(strs(route@).subrange(0, route.len() as int) =~= strs(route@));
        PatternTrie { root, patterns }
    }

    /// Every value of `record` that a pattern matches, in document order.
    pub fn extract(&self, record: &JsonDoc) -> (out: Vec<Extraction>)
        ensures
            triples(out@) == extract_at(record@, self@, Seq::empty()),
    {
        proof {
            use_type_invariant(self);
        }
        let mut results: Vec<Extraction> = Vec::new();
        assert(triples(results@) =~= Seq::empty());
        self.root.traverse(record, String::new(), &mut results, Ghost(self.patterns@));
        assert(Seq::<Triple>::empty() + extract_at(record@, self@, Seq::empty()) =~= extract_at(
            record@,
            self@,
            Seq::empty(),
        ));
        results
    }
}

} // verus!
