//! Long-term vector memory: the records the engine writes for each
//! indexed turn, the nearest-neighbor query and the index-creation
//! command it issues, and the decoding of the query engine's reply.
//! The embedding calls and the store traffic happen outside; everything
//! that builds or reads values is here.

use vstd::prelude::*;
use vstd::string::*;
use crate::keys::long_term_key;
use crate::models::MemoryMessage;
use crate::text::{contains_str, contains_sub, lower_of, lowercase, spec_decimal_digits, u64_to_string};
use crate::vector::{encode_vector, spec_encode_vector};

verus! {

/// A reply value of the store, as the engine reads it: nothing, an
/// integer, a text datum, or a nested array.
pub enum RedisValue {
    Nil,
    Int(i64),
    Data(String),
    Bulk(Vec<RedisValue>),
}

/// The mathematical value of one search hit.
pub ghost struct RedisearchResultView {
    pub role: Seq<char>,
    pub content: Seq<char>,
    pub dist: Seq<char>,
}

/// One nearest-neighbor hit: the turn's role and content, and the
/// distance as the engine reported it, kept as text.
pub struct RedisearchResult {
    pub role: String,
    pub content: String,
    pub dist: String,
}

impl View for RedisearchResult {
    type V = RedisearchResultView;

    open spec fn view(&self) -> RedisearchResultView {
        RedisearchResultView {
            role: self.role@,
            content: self.content@,
            dist: self.dist@,
        }
    }
}

impl DeepView for RedisearchResult {
    type V = RedisearchResultView;

    open spec fn deep_view(&self) -> RedisearchResultView {
        self.view()
    }
}

/// Every entry of a record's field list is a text datum.
pub open spec fn all_data(items: Seq<RedisValue>) -> bool {
    forall|i: int| 0 <= i < items.len() ==> (#[trigger] items[i]) is Data
}

/// The texts of a record's field list.
pub open spec fn datas_of(items: Seq<RedisValue>) -> Seq<Seq<char>> {
    items.map_values(|v: RedisValue| v->Data_0@)
}

/// The walk over a record's flat field list from position `i`: at each
/// position a known field name takes the entry after it as that field's
/// value (last occurrence wins); anything else, and a trailing name with
/// no value after it, is ignored.
pub open spec fn spec_fields_from(
    vals: Seq<Seq<char>>,
    i: int,
    role: Seq<char>,
    content: Seq<char>,
    dist: Seq<char>,
) -> RedisearchResultView
    decreases vals.len() - i,
{
    if i < 0 || i >= vals.len() {
        RedisearchResultView { role, content, dist }
    } else if i + 1 < vals.len() && vals[i] == "role"@ {
        spec_fields_from(vals, i + 1, vals[i + 1], content, dist)
    } else if i + 1 < vals.len() && vals[i] == "content"@ {
        spec_fields_from(vals, i + 1, role, vals[i + 1], dist)
    } else if i + 1 < vals.len() && vals[i] == "dist"@ {
        spec_fields_from(vals, i + 1, role, content, vals[i + 1])
    } else {
        spec_fields_from(vals, i + 1, role, content, dist)
    }
}

/// One record of the reply decoded: its flat field list walked for the
/// three known fields; a record that is not an array of text data is
/// malformed and yields nothing.
pub open spec fn spec_parse_record(v: RedisValue) -> Option<RedisearchResultView> {
    match v {
        RedisValue::Bulk(items) => if all_data(items@) {
            Some(spec_fields_from(datas_of(items@), 0, Seq::empty(), Seq::empty(), Seq::empty()))
        } else {
            None
        },
        _ => None,
    }
}

/// The reply's records decoded in order, malformed ones dropped.
pub open spec fn spec_parse_items(items: Seq<RedisValue>) -> Seq<RedisearchResultView>
    decreases items.len(),
{
    if items.len() == 0 {
        Seq::empty()
    } else {
        (match spec_parse_record(items[0]) {
            Some(r) => seq![r],
            None => Seq::<RedisearchResultView>::empty(),
        }) + spec_parse_items(items.drop_first())
    }
}

/// The whole search reply decoded: an array whose first entry is the
/// hit count, followed by one record per hit; anything else decodes to
/// no hits.
pub open spec fn spec_parse_response(v: RedisValue) -> Seq<RedisearchResultView> {
    match v {
        RedisValue::Bulk(items) => if items@.len() == 0 {
            Seq::empty()
        } else {
            spec_parse_items(items@.drop_first())
        },
        _ => Seq::empty(),
    }
}

fn record_strings(v: &RedisValue) -> (r: Option<Vec<String>>)
    ensures
        match v {
            RedisValue::Bulk(items) => if all_data(items@) {
                r matches Some(vals) && vals.deep_view() == datas_of(items@)
            } else {
                r is None
            },
            _ => r is None,
        },
{
    match v {
        RedisValue::Bulk(items) => {
            let n = items.len();
            let mut out: Vec<String> = Vec::new();
            let mut i: usize = 0;
            #[verifier::loop_isolation(false)]
            while i < n
                invariant
                    i <= n,
                    n == items@.len(),
                    out.deep_view().len() == i,
                    forall|k: int| 0 <= k < i ==> (#[trigger] items@[k]) is Data,
                    forall|k: int| 0 <= k < i
                        ==> #[trigger] out.deep_view()[k] == items@[k]->Data_0@,
                decreases n - i,
            {
                match &items[i] {
                    RedisValue::Data(s) => {
                        let ghost dv = out.deep_view();
                        out.push(s.clone());
                        proof {
                            assert(out.deep_view() =~= dv.push(items@[i as int]->Data_0@));
                        }
                    },
                    _ => {
                        return None;
                    },
                }
                i = i + 1;
            }
            proof {
                assert(out.deep_view() =~= datas_of(items@));
            }
            Some(out)
        },
        _ => None,
    }
}

fn parse_fields(vals: &Vec<String>) -> (r: RedisearchResult)
    ensures
        r@ == spec_fields_from(vals.deep_view(), 0, Seq::empty(), Seq::empty(), Seq::empty()),
{
    let ghost dv = vals.deep_view();
    let n = vals.len();
    let mut role = String::new();
    let mut content = String::new();
    let mut dist = String::new();
    let name_role = String::from_str("role");
    let name_content = String::from_str("content");
    let name_dist = String::from_str("dist");
    let mut i: usize = 0;
    #[verifier::loop_isolation(false)]
    while i < n
        invariant
            i <= n,
            n == dv.len(),
            spec_fields_from(dv, 0, Seq::empty(), Seq::empty(), Seq::empty())
                == spec_fields_from(dv, i as int, role@, content@, dist@),
        decreases n - i,
    {
        let ghost r0 = role@;
        let ghost c0 = content@;
        let ghost d0 = dist@;
        if i + 1 < n {
            if vals[i] == name_role {
                role = vals[i + 1].clone();
            } else if vals[i] == name_content {
                content = vals[i + 1].clone();
            } else if vals[i] == name_dist {
                dist = vals[i + 1].clone();
            }
        }
        proof {
            assert(spec_fields_from(dv, i as int, r0, c0, d0)
                == spec_fields_from(dv, i + 1, role@, content@, dist@));
        }
        i = i + 1;
    }
    RedisearchResult { role, content, dist }
}

/// Decodes one record of the reply; a record that is not an array of
/// text data is dropped by the caller.
pub fn parse_record(v: &RedisValue) -> (r: Option<RedisearchResult>)
    ensures
        match r {
            Some(rec) => spec_parse_record(*v) == Some(rec@),
            None => spec_parse_record(*v) is None,
        },
{
    match record_strings(v) {
        Some(vals) => Some(parse_fields(&vals)),
        None => None,
    }
}

/// Decodes the raw search reply: the leading count entry is skipped,
/// each well-formed record becomes one hit, and malformed records are
/// dropped rather than failing the whole search.
pub fn parse_redisearch_response(response: &RedisValue) -> (r: Vec<RedisearchResult>)
    ensures
        r.deep_view() == spec_parse_response(*response),
{
    match response {
        RedisValue::Bulk(items) => {
            let n = items.len();
            let mut out: Vec<RedisearchResult> = Vec::new();
            if n == 0 {
                return out;
            }
            let ghost rest = items@.drop_first();
            let mut i: usize = 1;
            #[verifier::loop_isolation(false)]
            while i < n
                invariant
                    1 <= i <= n,
                    n == items@.len(),
                    rest == items@.drop_first(),
                    out.deep_view() == spec_parse_items(rest.take(i - 1)),
                decreases n - i,
            {
                proof {
                    assert(rest.take(i as int) =~= rest.take(i - 1).push(rest[i - 1]));
                    lemma_parse_items_push(rest.take(i - 1), rest[i - 1]);
                    assert(rest[i - 1] == items@[i as int]);
                }
                match parse_record(&items[i]) {
                    Some(rec) => {
                        let ghost dv = out.deep_view();
                        out.push(rec);
                        proof {
                            assert(out.deep_view() =~= dv.push(rec@));
                        }
                    },
                    None => {},
                }
                i = i + 1;
            }
            proof {
                assert(rest.take(n - 1) =~= rest);
            }
            out
        },
        _ => Vec::new(),
    }
}

proof fn lemma_parse_items_push(items: Seq<RedisValue>, v: RedisValue)
    ensures
        spec_parse_items(items.push(v)) == spec_parse_items(items)
            + (match spec_parse_record(v) {
                Some(r) => seq![r],
                None => Seq::<RedisearchResultView>::empty(),
            }),
    decreases items.len(),
{
    let tail = match spec_parse_record(v) {
        Some(r) => seq![r],
        None => Seq::<RedisearchResultView>::empty(),
    };
    if items.len() == 0 {
        assert(items.push(v).drop_first() =~= items);
        assert(spec_parse_items(items) =~= Seq::<RedisearchResultView>::empty());
        assert(spec_parse_items(items.push(v)) =~= tail);
        assert(spec_parse_items(items) + tail =~= tail);
    } else {
        assert(items.push(v).drop_first() =~= items.drop_first().push(v));
        lemma_parse_items_push(items.drop_first(), v);
        assert(items.push(v)[0] == items[0]);
        assert(spec_parse_items(items.push(v)) =~= spec_parse_items(items) + tail);
    }
}

/// The mathematical value of one long-term record.
pub ghost struct IndexRecordView {
    pub key: Seq<char>,
    pub session_id: Seq<char>,
    pub role: Seq<char>,
    pub content: Seq<char>,
    pub vector: Seq<u8>,
}

/// One record the engine writes for an indexed turn: its store key
/// under the index's prefix, the session tag it is filtered by, the
/// turn, and the encoded embedding.
pub struct IndexRecord {
    pub key: String,
    pub session_id: String,
    pub role: String,
    pub content: String,
    pub vector: Vec<u8>,
}

impl View for IndexRecord {
    type V = IndexRecordView;

    open spec fn view(&self) -> IndexRecordView {
        IndexRecordView {
            key: self.key@,
            session_id: self.session_id@,
            role: self.role@,
            content: self.content@,
            vector: self.vector@,
        }
    }
}

impl DeepView for IndexRecord {
    type V = IndexRecordView;

    open spec fn deep_view(&self) -> IndexRecordView {
        self.view()
    }
}

/// Relies on `nanoid::format` with the default url-safe alphabet and
/// the default secure generator — the expansion of the nanoid crate's
/// default form.  The id is random; every outcome is 21 characters.
#[verifier::external_body]
fn generate_record_id() -> (r: String)
    ensures
        r@.len() == 21,
{
    nanoid::format(nanoid::rngs::default, &nanoid::alphabet::SAFE, 21)
}

/// Builds the records that index a batch of turns: one per embedding,
/// each under a freshly generated key, tagged with the session, holding
/// the turn and the little-endian encoding of its embedding.
pub fn build_index_records(
    messages: &Vec<MemoryMessage>,
    embeddings: &Vec<Vec<u32>>,
    session_id: &String,
) -> (r: Vec<IndexRecord>)
    requires
        embeddings@.len() == messages@.len(),
    ensures
        r@.len() == embeddings@.len(),
        forall|i: int| 0 <= i < r@.len() ==> {
            &&& (#[trigger] r.deep_view()[i]).session_id == session_id@
            &&& r.deep_view()[i].role == messages.deep_view()[i].role
            &&& r.deep_view()[i].content == messages.deep_view()[i].content
            &&& r.deep_view()[i].vector == spec_encode_vector(embeddings.deep_view()[i])
            &&& r.deep_view()[i].key.len() == 31
            &&& r.deep_view()[i].key.take(10) == "motorhead:"@
        },
{
    let n = embeddings.len();
    let mut out: Vec<IndexRecord> = Vec::new();
    let mut i: usize = 0;
    #[verifier::loop_isolation(false)]
    while i < n
        invariant
            i <= n,
            out.deep_view().len() == i,
            forall|k: int| 0 <= k < i ==> {
                &&& (#[trigger] out.deep_view()[k]).session_id == session_id@
                &&& out.deep_view()[k].role == messages.deep_view()[k].role
                &&& out.deep_view()[k].content == messages.deep_view()[k].content
                &&& out.deep_view()[k].vector == spec_encode_vector(embeddings.deep_view()[k])
                &&& out.deep_view()[k].key.len() == 31
                &&& out.deep_view()[k].key.take(10) == "motorhead:"@
            },
        decreases n - i,
    {
        let id = generate_record_id();
        let key = long_term_key(&id);
        proof {
            reveal_strlit("motorhead:");
            assert(key@.len() == 31);
            assert(key@.take(10) =~= "motorhead:"@);
        }
        let vector = encode_vector(&embeddings[i]);
        let record = IndexRecord {
            key,
            session_id: session_id.clone(),
            role: messages[i].role.clone(),
            content: messages[i].content.clone(),
            vector,
        };
        let ghost dv = out.deep_view();
        let ghost rv = record@;
        proof {
            assert(rv.session_id == session_id@);
            assert(rv.role == messages.deep_view()[i as int].role);
            assert(rv.content == messages.deep_view()[i as int].content);
            assert(embeddings.deep_view()[i as int] =~= embeddings@[i as int]@);
            assert(rv.vector == spec_encode_vector(embeddings.deep_view()[i as int]));
            assert(rv.key.len() == 31);
            assert(rv.key.take(10) == "motorhead:"@);
        }
        out.push(record);
        proof {
            assert(out.deep_view() =~= dv.push(rv));
        }
        i = i + 1;
    }
    out
}

/// The nearest-neighbor query the engine issues: the ten closest
/// records tagged with the session, their distance named `dist`.
pub fn knn_query(session_id: &String) -> (r: String)
    ensures
        r@ == "@session:{"@ + session_id@ + "}=>[KNN 10 @vector $V AS dist]"@,
{
    let mut s = String::from_str("@session:{");
    s.append(session_id.as_str());
    s.append("}=>[KNN 10 @vector $V AS dist]");
    s
}

/// One argument of a store command: text, or a binary blob.
pub enum CommandArg {
    Text(String),
    Blob(Vec<u8>),
}

/// The argument list of the search command: the index, the
/// session-scoped query, the query vector as the one parameter, the
/// three returned fields, ascending order by distance.
pub fn ft_search_args(session_id: &String, query_vector: Vec<u8>) -> (r: Vec<CommandArg>)
    ensures
        r@.len() == 15,
        r@[0] matches CommandArg::Text(s) && s@ == "motorhead"@,
        r@[1] matches CommandArg::Text(s)
            && s@ == "@session:{"@ + session_id@ + "}=>[KNN 10 @vector $V AS dist]"@,
        r@[2] matches CommandArg::Text(s) && s@ == "PARAMS"@,
        r@[3] matches CommandArg::Text(s) && s@ == "2"@,
        r@[4] matches CommandArg::Text(s) && s@ == "V"@,
        r@[5] matches CommandArg::Blob(b) && b@ == query_vector@,
        r@[6] matches CommandArg::Text(s) && s@ == "RETURN"@,
        r@[7] matches CommandArg::Text(s) && s@ == "3"@,
        r@[8] matches CommandArg::Text(s) && s@ == "role"@,
        r@[9] matches CommandArg::Text(s) && s@ == "content"@,
        r@[10] matches CommandArg::Text(s) && s@ == "dist"@,
        r@[11] matches CommandArg::Text(s) && s@ == "SORTBY"@,
        r@[12] matches CommandArg::Text(s) && s@ == "dist"@,
        r@[13] matches CommandArg::Text(s) && s@ == "DIALECT"@,
        r@[14] matches CommandArg::Text(s) && s@ == "2"@,
{
    let mut args: Vec<CommandArg> = Vec::new();
    args.push(CommandArg::Text(String::from_str("motorhead")));
    args.push(CommandArg::Text(knn_query(session_id)));
    args.push(CommandArg::Text(String::from_str("PARAMS")));
    args.push(CommandArg::Text(String::from_str("2")));
    args.push(CommandArg::Text(String::from_str("V")));
    args.push(CommandArg::Blob(query_vector));
    args.push(CommandArg::Text(String::from_str("RETURN")));
    args.push(CommandArg::Text(String::from_str("3")));
    args.push(CommandArg::Text(String::from_str("role")));
    args.push(CommandArg::Text(String::from_str("content")));
    args.push(CommandArg::Text(String::from_str("dist")));
    args.push(CommandArg::Text(String::from_str("SORTBY")));
    args.push(CommandArg::Text(String::from_str("dist")));
    args.push(CommandArg::Text(String::from_str("DIALECT")));
    args.push(CommandArg::Text(String::from_str("2")));
    args
}

/// The argument list of the index-creation command issued at bootstrap:
/// a hash index under the record prefix, with the session tag, the two
/// text fields, and a 32-bit-float vector field of the deployment's
/// dimensionality and distance metric.
pub fn ft_create_args(vector_dimensions: u64, distance_metric: &String) -> (r: Vec<String>)
    ensures
        r.deep_view() =~= seq![
            "motorhead"@, "ON"@, "HASH"@, "PREFIX"@, "1"@, "motorhead:"@,
            "SCHEMA"@, "session"@, "TAG"@, "content"@, "TEXT"@, "role"@, "TEXT"@,
            "vector"@, "VECTOR"@, "HNSW"@, "6"@, "TYPE"@, "FLOAT32"@, "DIM"@,
            spec_decimal_digits(vector_dimensions as int),
            "DISTANCE_METRIC"@, distance_metric@,
        ],
{
    let mut args: Vec<String> = Vec::new();
    args.push(String::from_str("motorhead"));
    args.push(String::from_str("ON"));
    args.push(String::from_str("HASH"));
    args.push(String::from_str("PREFIX"));
    args.push(String::from_str("1"));
    args.push(String::from_str("motorhead:"));
    args.push(String::from_str("SCHEMA"));
    args.push(String::from_str("session"));
    args.push(String::from_str("TAG"));
    args.push(String::from_str("content"));
    args.push(String::from_str("TEXT"));
    args.push(String::from_str("role"));
    args.push(String::from_str("TEXT"));
    args.push(String::from_str("vector"));
    args.push(String::from_str("VECTOR"));
    args.push(String::from_str("HNSW"));
    args.push(String::from_str("6"));
    args.push(String::from_str("TYPE"));
    args.push(String::from_str("FLOAT32"));
    args.push(String::from_str("DIM"));
    args.push(u64_to_string(vector_dimensions));
    args.push(String::from_str("DISTANCE_METRIC"));
    args.push(distance_metric.clone());
    args
}

/// Whether a reply to the index-description probe says the index does
/// not exist yet — the one failure bootstrap answers by creating it.
pub fn index_missing_error(error_text: &String) -> (r: bool)
    ensures
        r == contains_sub(lower_of(error_text@), "unknown: index name"@),
{
    let lowered = lowercase(error_text.as_str());
    contains_str(&lowered, "unknown: index name")
}

} // verus!
