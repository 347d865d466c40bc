//! The knowledge graph's logic: node identifiers, the upserts that ingesting
//! a document's entities amounts to, and how well an entity name matches a
//! query.  The graph database itself is driven from outside the library.
use vstd::prelude::*;

use crate::treesitter::{CodeEntity, CodeRelationship};
use crate::text::{
    chars_eq, contains_seq, contains_vec, from_chars, spec_lowercase, starts_with, starts_with_vec,
    string_of, to_chars, to_lowercase, views, ws_words, split_whitespace_chars, push_str,
};

verus! {

// ─── Data types ──────────────────────────────────────────────────────────────

/// An entity extracted from a document.
#[derive(Debug, Clone)]
pub struct Entity {
    pub name: String,
    pub entity_type: String,
    pub description: String,
}

/// A relationship between two entities.
#[derive(Debug, Clone)]
pub struct Relationship {
    pub source: String,
    pub target: String,
    pub relation: String,
    pub description: String,
}

/// Node and edge counts of a graph.
#[derive(Debug, Clone, Copy)]
pub struct GraphStats {
    pub node_count: i64,
    pub edge_count: i64,
}

// ─── Identifiers ─────────────────────────────────────────────────────────────

/// What `char::is_alphanumeric` gives for `c` (Unicode `Alphabetic` or
/// `Numeric`).
pub uninterp spec fn spec_is_alphanumeric(c: char) -> bool;

/// `c.is_alphanumeric()`.
#[verifier::external_body]
fn char_is_alphanumeric(c: char) -> (r: bool)
    ensures
        r == spec_is_alphanumeric(c),
{
    c.is_alphanumeric()
}

/// Every character that is not alphanumeric becomes `_`.
pub open spec fn underscore_others(s: Seq<char>) -> Seq<char> {
    Seq::new(s.len(), |i: int| if spec_is_alphanumeric(s[i]) { s[i] } else { '_' })
}

/// The node identifier of a name: lowercased, every character that is not
/// alphanumeric replaced by `_`.
pub open spec fn spec_sanitize_id(s: Seq<char>) -> Seq<char> {
    underscore_others(spec_lowercase(s))
}

/// Creates a stable, Cypher-safe node identifier from an arbitrary string.
pub fn sanitize_id(s: &str) -> (r: String)
    ensures
        r@ == spec_sanitize_id(s@),
{
    let low = to_lowercase(s);
    let lc = to_chars(low.as_str());
    let mut out: Vec<char> = Vec::new();
    let mut i: usize = 0;
    while i < lc.len()
        invariant
            i <= lc.len(),
            lc@ == spec_lowercase(s@),
            out@ == underscore_others(lc@).take(i as int),
        decreases lc.len() - i,
    {
        let c = lc[i];
        if char_is_alphanumeric(c) {
            out.push(c);
        } else {
            out.push('_');
        }
        assert(out@ =~= underscore_others(lc@).take(i + 1));
        i = i + 1;
    }
    assert(underscore_others(lc@).take(lc.len() as int) =~= underscore_others(lc@));
    from_chars(&out)
}

/// What `graphqlite::sanitize_rel_type` gives for a relation name.
pub uninterp spec fn spec_rel_type(relation: Seq<char>) -> Seq<char>;

/// `graphqlite::sanitize_rel_type`: the Cypher-safe relationship type of a
/// relation name.
#[verifier::external_body]
fn rel_type(relation: &str) -> (r: String)
    ensures
        r@ == spec_rel_type(relation@),
{
    graphqlite::sanitize_rel_type(relation)
}

// ─── Ingest plans ────────────────────────────────────────────────────────────

/// One upsert against the graph.
#[derive(Debug, Clone)]
pub enum GraphOp {
    /// Create or update node `id` with the properties, under the label.
    Node { id: String, props: Vec<(String, String)>, label: String },
    /// Create or update the edge `from -[rel_type]-> to` with the properties.
    Edge { from: String, to: String, props: Vec<(String, String)>, rel_type: String },
}

/// An upsert, by the characters of its parts.
pub enum OpView {
    Node(Seq<char>, Seq<(Seq<char>, Seq<char>)>, Seq<char>),
    Edge(Seq<char>, Seq<char>, Seq<(Seq<char>, Seq<char>)>, Seq<char>),
}

/// The views of property pairs.
pub open spec fn props_view(v: Seq<(String, String)>) -> Seq<(Seq<char>, Seq<char>)> {
    Seq::new(v.len(), |i: int| (v[i].0@, v[i].1@))
}

/// The view of an upsert.
pub open spec fn op_view(op: GraphOp) -> OpView {
    match op {
        GraphOp::Node { id, props, label } => OpView::Node(id@, props_view(props@), label@),
        GraphOp::Edge { from, to, props, rel_type } => OpView::Edge(from@, to@, props_view(props@), rel_type@),
    }
}

/// The views of a sequence of upserts.
pub open spec fn ops_view(v: Seq<GraphOp>) -> Seq<OpView> {
    Seq::new(v.len(), |i: int| op_view(v[i]))
}

/// The document node of a path.
pub open spec fn doc_node(doc: Seq<char>) -> OpView {
    OpView::Node(spec_sanitize_id(doc), seq![("path"@, doc), ("type"@, "document"@)], "Document"@)
}

/// The upserts for one entity of a document: its node, and the document's
/// MENTIONS edge to it.
pub open spec fn entity_ops(doc: Seq<char>, name: Seq<char>, etype: Seq<char>, desc: Seq<char>) -> Seq<OpView> {
    seq![
        OpView::Node(spec_sanitize_id(name), seq![("name"@, name), ("type"@, etype), ("description"@, desc)], "Entity"@),
        OpView::Edge(spec_sanitize_id(doc), spec_sanitize_id(name), seq![("source_doc"@, doc)], "MENTIONS"@),
    ]
}

/// The upserts for one relationship of a document: both entity nodes, then
/// the edge between them.
pub open spec fn relationship_ops(doc: Seq<char>, src: Seq<char>, tgt: Seq<char>, relation: Seq<char>, desc: Seq<char>) -> Seq<OpView> {
    seq![
        OpView::Node(spec_sanitize_id(src), seq![("name"@, src)], "Entity"@),
        OpView::Node(spec_sanitize_id(tgt), seq![("name"@, tgt)], "Entity"@),
        OpView::Edge(
            spec_sanitize_id(src),
            spec_sanitize_id(tgt),
            seq![("description"@, desc), ("source_doc"@, doc)],
            spec_rel_type(relation),
        ),
    ]
}

/// The upserts for the entities, in order.
pub open spec fn all_entity_ops(doc: Seq<char>, es: Seq<Entity>) -> Seq<OpView>
    decreases es.len(),
{
    if es.len() == 0 {
        Seq::empty()
    } else {
        let e = es.last();
        all_entity_ops(doc, es.drop_last()) + entity_ops(doc, e.name@, e.entity_type@, e.description@)
    }
}

/// The upserts for the relationships, in order.
pub open spec fn all_relationship_ops(doc: Seq<char>, rs: Seq<Relationship>) -> Seq<OpView>
    decreases rs.len(),
{
    if rs.len() == 0 {
        Seq::empty()
    } else {
        let r = rs.last();
        all_relationship_ops(doc, rs.drop_last()) + relationship_ops(doc, r.source@, r.target@, r.relation@, r.description@)
    }
}

/// The upserts that ingesting a document's entities and relationships
/// amounts to: the document node, then each entity's, then each
/// relationship's.
pub open spec fn spec_plan_ingest(doc: Seq<char>, es: Seq<Entity>, rs: Seq<Relationship>) -> Seq<OpView> {
    seq![doc_node(doc)] + all_entity_ops(doc, es) + all_relationship_ops(doc, rs)
}

fn prop(k: &str, v: &str) -> (r: (String, String))
    ensures
        r.0@ == k@,
        r.1@ == v@,
{
    (string_of(k), string_of(v))
}

/// The upserts that ingest a document's entities and relationships into
/// the graph, in the order they are applied: the document node; for each
/// entity its node and the document's MENTIONS edge to it; for each
/// relationship its two entity nodes and the edge between them.
pub fn plan_ingest(doc_path: &str, entities: &[Entity], relationships: &[Relationship]) -> (r: Vec<GraphOp>)
    ensures
        ops_view(r@) == spec_plan_ingest(doc_path@, entities@, relationships@),
{
    let doc_id = sanitize_id(doc_path);
    let mut ops: Vec<GraphOp> = Vec::new();
    let mut props: Vec<(String, String)> = Vec::new();
    props.push(prop("path", doc_path));
    props.push(prop("type", "document"));
    assert(props_view(props@) =~= seq![("path"@, doc_path@), ("type"@, "document"@)]);
    ops.push(GraphOp::Node { id: doc_id.clone(), props, label: string_of("Document") });
    assert(ops_view(ops@) =~= seq![doc_node(doc_path@)]);
    let mut i: usize = 0;
    while i < entities.len()
        invariant
            i <= entities.len(),
            doc_id@ == spec_sanitize_id(doc_path@),
            ops_view(ops@) == seq![doc_node(doc_path@)] + all_entity_ops(doc_path@, entities@.take(i as int)),
        decreases entities.len() - i,
    {
        assert(entities@.take(i + 1).drop_last() == entities@.take(i as int));
        let e = &entities[i];
        let node_id = sanitize_id(e.name.as_str());
        let mut np: Vec<(String, String)> = Vec::new();
        np.push(prop("name", e.name.as_str()));
        np.push(prop("type", e.entity_type.as_str()));
        np.push(prop("description", e.description.as_str()));
        let mut ep: Vec<(String, String)> = Vec::new();
        ep.push(prop("source_doc", doc_path));
        let ghost before = ops@;
        assert(props_view(np@) =~= seq![("name"@, e.name@), ("type"@, e.entity_type@), ("description"@, e.description@)]);
        assert(props_view(ep@) =~= seq![("source_doc"@, doc_path@)]);
        ops.push(GraphOp::Node { id: node_id.clone(), props: np, label: string_of("Entity") });
        ops.push(GraphOp::Edge { from: doc_id.clone(), to: node_id, props: ep, rel_type: string_of("MENTIONS") });
        assert(ops_view(ops@) =~= ops_view(before) + entity_ops(doc_path@, e.name@, e.entity_type@, e.description@));
        i = i + 1;
    }
    assert(entities@.take(entities.len() as int) == entities@);
    let ghost mid = ops_view(ops@);
    let mut j: usize = 0;
    while j < relationships.len()
        invariant
            j <= relationships.len(),
            ops_view(ops@) == mid + all_relationship_ops(doc_path@, relationships@.take(j as int)),
        decreases relationships.len() - j,
    {
        assert(relationships@.take(j + 1).drop_last() == relationships@.take(j as int));
        let r = &relationships[j];
        let source_id = sanitize_id(r.source.as_str());
        let target_id = sanitize_id(r.target.as_str());
        let mut sp: Vec<(String, String)> = Vec::new();
        sp.push(prop("name", r.source.as_str()));
        let mut tp: Vec<(String, String)> = Vec::new();
        tp.push(prop("name", r.target.as_str()));
        let mut ep: Vec<(String, String)> = Vec::new();
        ep.push(prop("description", r.description.as_str()));
        ep.push(prop("source_doc", doc_path));
        let rt = rel_type(r.relation.as_str());
        let ghost before = ops@;
        assert(props_view(sp@) =~= seq![("name"@, r.source@)]);
        assert(props_view(tp@) =~= seq![("name"@, r.target@)]);
        assert(props_view(ep@) =~= seq![("description"@, r.description@), ("source_doc"@, doc_path@)]);
        ops.push(GraphOp::Node { id: source_id.clone(), props: sp, label: string_of("Entity") });
        ops.push(GraphOp::Node { id: target_id.clone(), props: tp, label: string_of("Entity") });
        ops.push(GraphOp::Edge { from: source_id, to: target_id, props: ep, rel_type: rt });
        assert(ops_view(ops@) =~= ops_view(before) + relationship_ops(doc_path@, r.source@, r.target@, r.relation@, r.description@));
        j = j + 1;
    }
    assert(relationships@.take(relationships.len() as int) == relationships@);
    ops
}

/// The node identifier of a code entity: its file path and name joined by
/// `::`, sanitized.
pub open spec fn code_entity_id(file: Seq<char>, name: Seq<char>) -> Seq<char> {
    spec_sanitize_id(file + "::"@ + name)
}

/// The upserts for one code entity: its node (with its file), and the
/// file's MENTIONS edge to it.
pub open spec fn code_entity_ops(file: Seq<char>, e: CodeEntity) -> Seq<OpView> {
    seq![
        OpView::Node(
            code_entity_id(file, e.name@),
            seq![("name"@, e.name@), ("type"@, e.entity_type@), ("description"@, e.description@), ("file"@, e.file_path@)],
            "Entity"@,
        ),
        OpView::Edge(spec_sanitize_id(file), code_entity_id(file, e.name@), seq![("source_doc"@, file)], "MENTIONS"@),
    ]
}

/// The upserts for one code relationship: the source node (scoped to the
/// file), the target node, and the edge.
pub open spec fn code_relationship_ops(file: Seq<char>, r: CodeRelationship) -> Seq<OpView> {
    seq![
        OpView::Node(code_entity_id(file, r.source@), seq![("name"@, r.source@)], "Entity"@),
        OpView::Node(spec_sanitize_id(r.target@), seq![("name"@, r.target@)], "Entity"@),
        OpView::Edge(
            code_entity_id(file, r.source@),
            spec_sanitize_id(r.target@),
            seq![("source_doc"@, file)],
            spec_rel_type(r.relation@),
        ),
    ]
}

/// The upserts for the code entities, in order.
pub open spec fn all_code_entity_ops(file: Seq<char>, es: Seq<CodeEntity>) -> Seq<OpView>
    decreases es.len(),
{
    if es.len() == 0 {
        Seq::empty()
    } else {
        all_code_entity_ops(file, es.drop_last()) + code_entity_ops(file, es.last())
    }
}

/// The upserts for the code relationships, in order.
pub open spec fn all_code_relationship_ops(file: Seq<char>, rs: Seq<CodeRelationship>) -> Seq<OpView>
    decreases rs.len(),
{
    if rs.len() == 0 {
        Seq::empty()
    } else {
        all_code_relationship_ops(file, rs.drop_last()) + code_relationship_ops(file, rs.last())
    }
}

/// The upserts that ingesting a file's code entities amounts to.
pub open spec fn spec_plan_code_ingest(file: Seq<char>, es: Seq<CodeEntity>, rs: Seq<CodeRelationship>) -> Seq<OpView> {
    seq![doc_node(file)] + all_code_entity_ops(file, es) + all_code_relationship_ops(file, rs)
}

fn scoped_id(file: &str, name: &str) -> (r: String)
    ensures
        r@ == code_entity_id(file@, name@),
{
    let mut v: Vec<char> = Vec::new();
    push_str(&mut v, file);
    push_str(&mut v, "::");
    push_str(&mut v, name);
    let joined = from_chars(&v);
    sanitize_id(joined.as_str())
}

/// The upserts that ingest the code entities and relationships of one file:
/// the file's document node; for each entity its node (scoped to the file)
/// and the MENTIONS edge; for each relationship the source and target
/// nodes and the edge between them.
pub fn plan_code_ingest(entities: &[CodeEntity], relationships: &[CodeRelationship], file_path: &str) -> (r: Vec<GraphOp>)
    ensures
        ops_view(r@) == spec_plan_code_ingest(file_path@, entities@, relationships@),
{
    let doc_id = sanitize_id(file_path);
    let mut ops: Vec<GraphOp> = Vec::new();
    let mut props: Vec<(String, String)> = Vec::new();
    props.push(prop("path", file_path));
    props.push(prop("type", "document"));
    assert(props_view(props@) =~= seq![("path"@, file_path@), ("type"@, "document"@)]);
    ops.push(GraphOp::Node { id: doc_id.clone(), props, label: string_of("Document") });
    assert(ops_view(ops@) =~= seq![doc_node(file_path@)]);
    let mut i: usize = 0;
    while i < entities.len()
        invariant
            i <= entities.len(),
            doc_id@ == spec_sanitize_id(file_path@),
            ops_view(ops@) == seq![doc_node(file_path@)] + all_code_entity_ops(file_path@, entities@.take(i as int)),
        decreases entities.len() - i,
    {
        assert(entities@.take(i + 1).drop_last() == entities@.take(i as int));
        let e = &entities[i];
        let node_id = scoped_id(file_path, e.name.as_str());
        let mut np: Vec<(String, String)> = Vec::new();
        np.push(prop("name", e.name.as_str()));
        np.push(prop("type", e.entity_type.as_str()));
        np.push(prop("description", e.description.as_str()));
        np.push(prop("file", e.file_path.as_str()));
        let mut ep: Vec<(String, String)> = Vec::new();
        ep.push(prop("source_doc", file_path));
        let ghost before = ops@;
        assert(props_view(np@) =~= seq![("name"@, e.name@), ("type"@, e.entity_type@), ("description"@, e.description@), ("file"@, e.file_path@)]);
        assert(props_view(ep@) =~= seq![("source_doc"@, file_path@)]);
        ops.push(GraphOp::Node { id: node_id.clone(), props: np, label: string_of("Entity") });
        ops.push(GraphOp::Edge { from: doc_id.clone(), to: node_id, props: ep, rel_type: string_of("MENTIONS") });
        assert(ops_view(ops@) =~= ops_view(before) + code_entity_ops(file_path@, *e));
        i = i + 1;
    }
    assert(entities@.take(entities.len() as int) == entities@);
    let ghost mid = ops_view(ops@);
    let mut j: usize = 0;
    while j < relationships.len()
        invariant
            j <= relationships.len(),
            ops_view(ops@) == mid + all_code_relationship_ops(file_path@, relationships@.take(j as int)),
        decreases relationships.len() - j,
    {
        assert(relationships@.take(j + 1).drop_last() == relationships@.take(j as int));
        let r = &relationships[j];
        let source_id = scoped_id(file_path, r.source.as_str());
        let target_id = sanitize_id(r.target.as_str());
        let mut sp: Vec<(String, String)> = Vec::new();
        sp.push(prop("name", r.source.as_str()));
        let mut tp: Vec<(String, String)> = Vec::new();
        tp.push(prop("name", r.target.as_str()));
        let mut ep: Vec<(String, String)> = Vec::new();
        ep.push(prop("source_doc", file_path));
        let rt = rel_type(r.relation.as_str());
        let ghost before = ops@;
        assert(props_view(sp@) =~= seq![("name"@, r.source@)]);
        assert(props_view(tp@) =~= seq![("name"@, r.target@)]);
        assert(props_view(ep@) =~= seq![("source_doc"@, file_path@)]);
        ops.push(GraphOp::Node { id: source_id.clone(), props: sp, label: string_of("Entity") });
        ops.push(GraphOp::Node { id: target_id.clone(), props: tp, label: string_of("Entity") });
        ops.push(GraphOp::Edge { from: source_id, to: target_id, props: ep, rel_type: rt });
        assert(ops_view(ops@) =~= ops_view(before) + code_relationship_ops(file_path@, *r));
        j = j + 1;
    }
    assert(relationships@.take(relationships.len() as int) == relationships@);
    ops
}

/// The identifier of a document's removal target: its document node.
pub fn document_node_id(doc_path: &str) -> (r: String)
    ensures
        r@ == spec_sanitize_id(doc_path@),
{
    sanitize_id(doc_path)
}

/// The graph database file of a knowledge base: `<kb_name>_graph.db`.
pub fn graph_db_file_name(kb_name: &str) -> (r: String)
    ensures
        r@ == kb_name@ + "_graph.db"@,
{
    let mut out: Vec<char> = Vec::new();
    push_str(&mut out, kb_name);
    push_str(&mut out, "_graph.db");
    from_chars(&out)
}

// ─── Matching entities to a query ────────────────────────────────────────────

/// How well a lowercased entity name matches one lowercased query word:
/// 3 equal, 2 a prefix, 1 contained, 0 not at all.
pub open spec fn word_tier(name: Seq<char>, word: Seq<char>) -> nat {
    if name == word {
        3
    } else if starts_with(name, word) {
        2
    } else if contains_seq(name, word) {
        1
    } else {
        0
    }
}

/// The best tier over the words.
pub open spec fn best_tier(name: Seq<char>, words: Seq<Seq<char>>) -> nat
    decreases words.len(),
{
    if words.len() == 0 {
        0
    } else {
        let prev = best_tier(name, words.drop_last());
        let t = word_tier(name, words.last());
        if t > prev {
            t
        } else {
            prev
        }
    }
}

/// How well an entity name matches a query, over the query's lowercased
/// words: 3 when the lowercased name equals a word (quality 1.0), 2 when it
/// starts with one (0.7), 1 when it contains one (0.5), 0 when it matches
/// none.
pub open spec fn spec_match_tier(name: Seq<char>, query: Seq<char>) -> nat {
    best_tier(spec_lowercase(name), ws_words(spec_lowercase(query)))
}

/// The tier of an entity name for a query: 3 exact, 2 prefix, 1 substring,
/// 0 no match (each word of the lowercased query against the lowercased
/// name, the best one kept).
pub fn match_tier(name: &str, query: &str) -> (r: u8)
    ensures
        r as nat == spec_match_tier(name@, query@),
{
    let ql = to_lowercase(query);
    let qc = to_chars(ql.as_str());
    let words = split_whitespace_chars(&qc);
    let nl = to_lowercase(name);
    let nc = to_chars(nl.as_str());
    let mut best: u8 = 0;
    let mut i: usize = 0;
    while i < words.len()
        invariant
            i <= words.len(),
            views(words@) == ws_words(spec_lowercase(query@)),
            nc@ == spec_lowercase(name@),
            best as nat == best_tier(nc@, views(words@).take(i as int)),
        decreases words.len() - i,
    {
        assert(views(words@).take(i + 1).drop_last() == views(words@).take(i as int));
        let w = &words[i];
        let t: u8 = if chars_eq(&nc, w) {
            3
        } else if starts_with_vec(&nc, w) {
            2
        } else if contains_vec(&nc, w) {
            1
        } else {
            0
        };
        if t > best {
            best = t;
        }
        i = i + 1;
    }
    assert(views(words@).take(words.len() as int) == views(words@));
    best
}

} // verus!
