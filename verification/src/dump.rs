//! Assembly of the dump tree: the exact list of files — path and content,
//! in write order — that one run of the generator produces.
//!
//! Everything is deterministic except the timestamp and the fresh
//! identifiers, which are drawn once per run and threaded through.

use vstd::prelude::*;
use vstd::string::StringExecFns;
use crate::config::{
    IndexConfig, ConfigView, CliView, merged_configs, raw_configs, names_of, distinct_names,
    lemma_merged_one_per_name,
};
use crate::json::{json_quoted, json_string, json_str_array, json_string_array};
use crate::text::{dec_digits, u64_to_string, cat_lines, lemma_cat_lines_snoc};
use crate::convert::{
    convert_streaming, convert_structured, stream_records, structured_records, all_arrays,
};
use crate::json::json_array_elems;
use crate::ids::{fresh_uuid, now_rfc3339};

verus! {

/// One file of the dump tree: its path relative to the tree root, and its
/// full content.
#[derive(Debug)]
pub struct DumpFile {
    pub path: String,
    pub content: String,
}

/// The mathematical value of a `DumpFile`.
#[verifier::ext_equal]
pub struct FileView {
    pub path: Seq<char>,
    pub content: Seq<char>,
}

impl DeepView for DumpFile {
    type V = FileView;

    open spec fn deep_view(&self) -> FileView {
        FileView { path: self.path@, content: self.content@ }
    }
}

/// Raised when a document source is not a JSON document with a top-level
/// array; it names the offending file.
#[derive(Debug)]
pub struct FormatError {
    pub file: String,
}

/// The instance metadata file.
pub open spec fn metadata_json(now: Seq<char>) -> Seq<char> {
    "{\"dumpVersion\":\"V6\",\"dbVersion\":\"1.15.2\",\"dumpDate\":"@ + json_quoted(now) + "}"@
}

fn render_metadata(now: &str) -> (r: String)
    ensures
        r@ == metadata_json(now@),
{
    let mut s = "{\"dumpVersion\":\"V6\",\"dbVersion\":\"1.15.2\",\"dumpDate\":".to_owned();
    let q = json_string(now);
    s.append(q.as_str());
    s.append("}");
    proof {
        assert(s@ =~= metadata_json(now@));
    }
    s
}

/// One synthetic API key record: `desc`, `name` and `actions` are written
/// as given (they are fixed JSON fragments), the key identifier and the
/// timestamps as JSON strings.
pub open spec fn api_key_line(
    desc: Seq<char>,
    name: Seq<char>,
    actions: Seq<char>,
    uid: Seq<char>,
    now: Seq<char>,
) -> Seq<char> {
    "{\"description\":"@ + desc + ",\"name\":"@ + name + ",\"uid\":"@ + json_quoted(uid)
        + ",\"actions\":"@ + actions + ",\"indexes\":[\"*\"],\"expires_at\":null,\"created_at\":"@
        + json_quoted(now) + ",\"updated_at\":"@ + json_quoted(now) + "}"@
}

fn render_api_key(desc: &str, name: &str, actions: &str, uid: &str, now: &str) -> (r: String)
    ensures
        r@ == api_key_line(desc@, name@, actions@, uid@, now@),
{
    let nq = json_string(now);
    let mut s = "{\"description\":".to_owned();
    s.append(desc);
    s.append(",\"name\":");
    s.append(name);
    s.append(",\"uid\":");
    let uq = json_string(uid);
    s.append(uq.as_str());
    s.append(",\"actions\":");
    s.append(actions);
    s.append(",\"indexes\":[\"*\"],\"expires_at\":null,\"created_at\":");
    s.append(nq.as_str());
    s.append(",\"updated_at\":");
    s.append(nq.as_str());
    s.append("}");
    proof {
        assert(s@ =~= api_key_line(desc@, name@, actions@, uid@, now@));
    }
    s
}

/// The three synthetic API key lines of one run: a search-only key, an
/// all-actions admin key, and a chat-and-search key.
pub open spec fn keys_lines(now: Seq<char>, k0: Seq<char>, k1: Seq<char>, k2: Seq<char>) -> Seq<
    Seq<char>,
> {
    seq![
        api_key_line(
            "\"Use it to search from the frontend\""@,
            "\"Default Search API Key\""@,
            "[\"search\"]"@,
            k0,
            now,
        ),
        api_key_line(
            "\"Use it for anything that is not a search operation. Caution! Do not expose it on a public frontend\""@,
            "\"Default Admin API Key\""@,
            "[\"*\"]"@,
            k1,
            now,
        ),
        api_key_line(
            "\"Use it to chat and search from the frontend\""@,
            "\"Default Chat API Key\""@,
            "[\"chatCompletions\",\"search\"]"@,
            k2,
            now,
        ),
    ]
}

fn render_keys(now: &str, k0: &str, k1: &str, k2: &str) -> (r: String)
    ensures
        r@ == cat_lines(keys_lines(now@, k0@, k1@, k2@)),
{
    let l0 = render_api_key(
        "\"Use it to search from the frontend\"",
        "\"Default Search API Key\"",
        "[\"search\"]",
        k0,
        now,
    );
    let l1 = render_api_key(
        "\"Use it for anything that is not a search operation. Caution! Do not expose it on a public frontend\"",
        "\"Default Admin API Key\"",
        "[\"*\"]",
        k1,
        now,
    );
    let l2 = render_api_key(
        "\"Use it to chat and search from the frontend\"",
        "\"Default Chat API Key\"",
        "[\"chatCompletions\",\"search\"]",
        k2,
        now,
    );
    let mut s = l0;
    s.append("\n");
    s.append(l1.as_str());
    s.append("\n");
    s.append(l2.as_str());
    s.append("\n");
    proof {
        reveal_strlit("\n");
        assert("\n"@ =~= seq!['\n']);
        let ls = keys_lines(now@, k0@, k1@, k2@);
        assert(Seq::<Seq<char>>::empty().push(ls[0]) =~= seq![ls[0]]);
        assert(seq![ls[0]].push(ls[1]) =~= seq![ls[0], ls[1]]);
        assert(seq![ls[0], ls[1]].push(ls[2]) =~= ls);
        assert(cat_lines(Seq::<Seq<char>>::empty()) == Seq::<char>::empty());
        lemma_cat_lines_snoc(Seq::<Seq<char>>::empty(), ls[0]);
        lemma_cat_lines_snoc(seq![ls[0]], ls[1]);
        lemma_cat_lines_snoc(seq![ls[0], ls[1]], ls[2]);
        assert(s@ =~= cat_lines(ls));
    }
    s
}

/// The empty network-topology stub.
pub open spec fn network_json() -> Seq<char> {
    "{\"self\":null,\"remotes\":{}}"@
}

/// The feature-flag stub: every experimental flag disabled.
pub open spec fn features_json() -> Seq<char> {
    "{\"metrics\":false,\"logsRoute\":false,\"editDocumentsByFunction\":false,\"containsFilter\":false,\"network\":false,\"getTaskDocumentsRoute\":false,\"compositeEmbedders\":false,\"chatCompletions\":false}"@
}

/// One index's metadata file: its uid, the fixed primary key `id`, and the
/// run timestamp as both creation and update time.
pub open spec fn index_metadata_json(name: Seq<char>, now: Seq<char>) -> Seq<char> {
    "{\"uid\":"@ + json_quoted(name) + ",\"primaryKey\":\"id\",\"createdAt\":"@ + json_quoted(now)
        + ",\"updatedAt\":"@ + json_quoted(now) + "}"@
}

fn render_index_metadata(name: &str, now: &str) -> (r: String)
    ensures
        r@ == index_metadata_json(name@, now@),
{
    let mut s = "{\"uid\":".to_owned();
    let nq = json_string(name);
    s.append(nq.as_str());
    s.append(",\"primaryKey\":\"id\",\"createdAt\":");
    let tq = json_string(now);
    s.append(tq.as_str());
    s.append(",\"updatedAt\":");
    s.append(tq.as_str());
    s.append("}");
    proof {
        assert(s@ =~= index_metadata_json(name@, now@));
    }
    s
}

/// One index's settings file: the three attribute sets vary per index; the
/// long tail of engine defaults is invariant across indexes and runs.
pub open spec fn settings_json(
    displayed: Seq<Seq<char>>,
    searchable: Seq<Seq<char>>,
    filterable: Seq<Seq<char>>,
) -> Seq<char> {
    "{\"displayedAttributes\":"@ + json_str_array(displayed) + ",\"searchableAttributes\":"@
        + json_str_array(searchable) + ",\"filterableAttributes\":"@ + json_str_array(filterable)
        + ",\"sortableAttributes\":[],\"rankingRules\":[\"words\",\"typo\",\"proximity\",\"attribute\",\"sort\",\"exactness\"],\"stopWords\":[],\"nonSeparatorTokens\":[],\"separatorTokens\":[],\"dictionary\":[],\"synonyms\":{},\"distinctAttribute\":null,\"proximityPrecision\":\"byWord\",\"typoTolerance\":{\"enabled\":true,\"minWordSizeForTypos\":{\"oneTypo\":5,\"twoTypos\":9},\"disableOnWords\":[],\"disableOnAttributes\":[],\"disableOnNumbers\":false},\"faceting\":{\"maxValuesPerFacet\":100,\"sortFacetValuesBy\":{\"*\":\"alpha\"}},\"pagination\":{\"maxTotalHits\":1000},\"embedders\":{},\"searchCutoffMs\":null,\"localizedAttributes\":null,\"facetSearch\":true,\"prefixSearch\":\"indexingTime\",\"chat\":{\"description\":\"\",\"documentTemplate\":\"{% for field in fields %}{% if field.is_searchable and field.value != nil %}{{ field.name }}: {{ field.value }}\\\\n{% endif %}{% endfor %}\",\"documentTemplateMaxBytes\":400,\"searchParameters\":{}}}"@
}

fn render_settings(
    displayed: &Vec<String>,
    searchable: &Vec<String>,
    filterable: &Vec<String>,
) -> (r: String)
    ensures
        r@ == settings_json(displayed.deep_view(), searchable.deep_view(), filterable.deep_view()),
{
    let mut s = "{\"displayedAttributes\":".to_owned();
    let d = json_string_array(displayed);
    s.append(d.as_str());
    s.append(",\"searchableAttributes\":");
    let se = json_string_array(searchable);
    s.append(se.as_str());
    s.append(",\"filterableAttributes\":");
    let f = json_string_array(filterable);
    s.append(f.as_str());
    s.append(
        ",\"sortableAttributes\":[],\"rankingRules\":[\"words\",\"typo\",\"proximity\",\"attribute\",\"sort\",\"exactness\"],\"stopWords\":[],\"nonSeparatorTokens\":[],\"separatorTokens\":[],\"dictionary\":[],\"synonyms\":{},\"distinctAttribute\":null,\"proximityPrecision\":\"byWord\",\"typoTolerance\":{\"enabled\":true,\"minWordSizeForTypos\":{\"oneTypo\":5,\"twoTypos\":9},\"disableOnWords\":[],\"disableOnAttributes\":[],\"disableOnNumbers\":false},\"faceting\":{\"maxValuesPerFacet\":100,\"sortFacetValuesBy\":{\"*\":\"alpha\"}},\"pagination\":{\"maxTotalHits\":1000},\"embedders\":{},\"searchCutoffMs\":null,\"localizedAttributes\":null,\"facetSearch\":true,\"prefixSearch\":\"indexingTime\",\"chat\":{\"description\":\"\",\"documentTemplate\":\"{% for field in fields %}{% if field.is_searchable and field.value != nil %}{{ field.name }}: {{ field.value }}\\\\n{% endif %}{% endfor %}\",\"documentTemplateMaxBytes\":400,\"searchParameters\":{}}}",
    );
    proof {
        assert(s@ =~= settings_json(
            displayed.deep_view(),
            searchable.deep_view(),
            filterable.deep_view(),
        ));
    }
    s
}

/// The members of the batch record's per-index presence map, in merged
/// configuration order.
pub open spec fn batch_uid_items(cs: Seq<ConfigView>) -> Seq<char>
    decreases cs.len(),
{
    if cs.len() == 0 {
        Seq::empty()
    } else if cs.len() == 1 {
        json_quoted(cs[0].index) + ":1"@
    } else {
        batch_uid_items(cs.drop_last()) + ","@ + json_quoted(cs.last().index) + ":1"@
    }
}

/// The single synthetic batch record summarizing the run.
pub open spec fn batch_line(cs: Seq<ConfigView>, now: Seq<char>) -> Seq<char> {
    "{\"uid\":0,\"details\":{\"receivedDocuments\":2,\"indexedDocuments\":2},\"stats\":{\"totalNbTasks\":1,\"status\":{\"succeeded\":1},\"types\":{\"documentAdditionOrUpdate\":1},\"indexUids\":{"@
        + batch_uid_items(cs)
        + "},\"progressTrace\":{},\"writeChannelCongestion\":{},\"internalDatabaseSizes\":{}},\"startedAt\":"@
        + json_quoted(now) + ",\"finishedAt\":"@ + json_quoted(now) + ",\"enqueuedAt\":{\"earliest\":"@
        + json_quoted(now) + ",\"oldest\":"@ + json_quoted(now)
        + "},\"stopReason\":\"batched all enqueued tasks\"}"@
}

fn render_batch(configs: &Vec<IndexConfig>, now: &str) -> (r: String)
    ensures
        r@ == cat_lines(seq![batch_line(configs.deep_view(), now@)]),
{
    let ghost cv = configs.deep_view();
    let mut s =
        "{\"uid\":0,\"details\":{\"receivedDocuments\":2,\"indexedDocuments\":2},\"stats\":{\"totalNbTasks\":1,\"status\":{\"succeeded\":1},\"types\":{\"documentAdditionOrUpdate\":1},\"indexUids\":{".to_owned();
    let mut i: usize = 0;
    let ghost head = s@;
    while i < configs.len()
        invariant
            0 <= i <= configs.len(),
            cv == configs.deep_view(),
            cv.len() == configs@.len(),
            s@ == head + batch_uid_items(cv.take(i as int)),
        decreases configs.len() - i,
    {
        if i > 0 {
            s.append(",");
        }
        let q = json_string(configs[i].index.as_str());
        s.append(q.as_str());
        s.append(":1");
        proof {
            assert(cv[i as int] == configs@[i as int].deep_view());
            assert(cv[i as int].index == configs@[i as int].index@);
            if i == 0 {
                assert(cv.take(1)[0] == cv[0]);
                assert(batch_uid_items(cv.take(1)) == json_quoted(cv[0].index) + ":1"@);
            } else {
                assert(cv.take(i + 1).drop_last() =~= cv.take(i as int));
                assert(cv.take(i + 1).last() == cv[i as int]);
                assert(batch_uid_items(cv.take(i + 1)) == batch_uid_items(cv.take(i as int))
                    + ","@ + json_quoted(cv[i as int].index) + ":1"@);
            }
            assert(s@ =~= head + batch_uid_items(cv.take(i + 1)));
        }
        i = i + 1;
    }
    s.append(
        "},\"progressTrace\":{},\"writeChannelCongestion\":{},\"internalDatabaseSizes\":{}},\"startedAt\":",
    );
    let nq = json_string(now);
    s.append(nq.as_str());
    s.append(",\"finishedAt\":");
    s.append(nq.as_str());
    s.append(",\"enqueuedAt\":{\"earliest\":");
    s.append(nq.as_str());
    s.append(",\"oldest\":");
    s.append(nq.as_str());
    s.append("},\"stopReason\":\"batched all enqueued tasks\"}");
    s.append("\n");
    proof {
        reveal_strlit("\n");
        assert("\n"@ =~= seq!['\n']);
        assert(cv.take(cv.len() as int) =~= cv);
        lemma_cat_lines_snoc(Seq::<Seq<char>>::empty(), batch_line(cv, now@));
        assert(Seq::<Seq<char>>::empty().push(batch_line(cv, now@)) =~= seq![
            batch_line(cv, now@),
        ]);
        assert(s@ =~= cat_lines(seq![batch_line(cv, now@)]));
    }
    s
}

/// One synthetic task record: uid `i`, the index's name, and the fixed
/// import metadata asserting a succeeded two-document import.
pub open spec fn task_line(i: int, name: Seq<char>, now: Seq<char>) -> Seq<char> {
    "{\"uid\":"@ + dec_digits(i) + ",\"batchUid\":null,\"indexUid\":"@ + json_quoted(name)
        + ",\"status\":\"succeeded\",\"type\":{\"documentImport\":{\"primary_key\":null,\"method\":\"ReplaceDocuments\",\"documents_count\":2,\"allow_index_creation\":true}},\"details\":{\"DocumentAdditionOrUpdate\":{\"received_documents\":2,\"indexed_documents\":2}},\"enqueuedAt\":"@
        + json_quoted(now) + ",\"startedAt\":"@ + json_quoted(now) + ",\"finishedAt\":"@
        + json_quoted(now) + "}"@
}

/// The task queue's lines: one per configuration, uids sequential from 0,
/// in merged configuration order.
pub open spec fn tasks_lines(cs: Seq<ConfigView>, now: Seq<char>) -> Seq<Seq<char>> {
    Seq::new(cs.len(), |i: int| task_line(i, cs[i].index, now))
}

fn render_task_line(i: u64, name: &str, now: &str) -> (r: String)
    ensures
        r@ == task_line(i as int, name@, now@),
{
    let mut s = "{\"uid\":".to_owned();
    let d = u64_to_string(i);
    s.append(d.as_str());
    s.append(",\"batchUid\":null,\"indexUid\":");
    let q = json_string(name);
    s.append(q.as_str());
    s.append(
        ",\"status\":\"succeeded\",\"type\":{\"documentImport\":{\"primary_key\":null,\"method\":\"ReplaceDocuments\",\"documents_count\":2,\"allow_index_creation\":true}},\"details\":{\"DocumentAdditionOrUpdate\":{\"received_documents\":2,\"indexed_documents\":2}},\"enqueuedAt\":",
    );
    let nq = json_string(now);
    s.append(nq.as_str());
    s.append(",\"startedAt\":");
    s.append(nq.as_str());
    s.append(",\"finishedAt\":");
    s.append(nq.as_str());
    s.append("}");
    proof {
        assert(s@ =~= task_line(i as int, name@, now@));
    }
    s
}

fn render_tasks(configs: &Vec<IndexConfig>, now: &str) -> (r: String)
    ensures
        r@ == cat_lines(tasks_lines(configs.deep_view(), now@)),
{
    let ghost cv = configs.deep_view();
    let mut s = String::new();
    let mut i: usize = 0;
    proof {
        assert(tasks_lines(cv, now@).take(0) =~= Seq::<Seq<char>>::empty());
        assert(s@ =~= cat_lines(tasks_lines(cv, now@).take(0)));
    }
    while i < configs.len()
        invariant
            0 <= i <= configs.len(),
            cv == configs.deep_view(),
            cv.len() == configs@.len(),
            s@ == cat_lines(tasks_lines(cv, now@).take(i as int)),
        decreases configs.len() - i,
    {
        let line = render_task_line(i as u64, configs[i].index.as_str(), now);
        s.append(line.as_str());
        s.append("\n");
        proof {
            reveal_strlit("\n");
            assert("\n"@ =~= seq!['\n']);
            assert(cv[i as int].index == configs@[i as int].index@);
            lemma_cat_lines_snoc(tasks_lines(cv, now@).take(i as int), line@);
            assert(tasks_lines(cv, now@).take(i as int).push(line@) =~= tasks_lines(
                cv,
                now@,
            ).take(i + 1));
            assert(s@ =~= cat_lines(tasks_lines(cv, now@).take(i + 1)));
        }
        i = i + 1;
    }
    proof {
        assert(tasks_lines(cv, now@).take(cv.len() as int) =~= tasks_lines(cv, now@));
    }
    s
}

/// The five fixed top-level files of the tree, in write order.
pub open spec fn top_entries(
    now: Seq<char>,
    iuid: Seq<char>,
    k0: Seq<char>,
    k1: Seq<char>,
    k2: Seq<char>,
) -> Seq<FileView> {
    seq![
        FileView { path: "metadata.json"@, content: metadata_json(now) },
        FileView { path: "instance_uid"@, content: iuid },
        FileView { path: "keys.jsonl"@, content: cat_lines(keys_lines(now, k0, k1, k2)) },
        FileView { path: "network.json"@, content: network_json() },
        FileView { path: "experimental-features.json"@, content: features_json() },
    ]
}

/// The three files of one index's directory.
pub open spec fn index_triple(c: ConfigView, doc: Seq<char>, now: Seq<char>) -> Seq<FileView> {
    seq![
        FileView {
            path: "indexes/"@ + c.index + "/metadata.json"@,
            content: index_metadata_json(c.index, now),
        },
        FileView {
            path: "indexes/"@ + c.index + "/settings.json"@,
            content: settings_json(c.displayed, c.searchable, c.filterable),
        },
        FileView { path: "indexes/"@ + c.index + "/documents.jsonl"@, content: doc },
    ]
}

/// The per-index files of the tree, three per configuration, in merged
/// configuration order, `docs[i]` being the converted documents of
/// configuration `i`.
pub open spec fn index_entries(cs: Seq<ConfigView>, docs: Seq<Seq<char>>, now: Seq<char>) -> Seq<
    FileView,
>
    decreases cs.len(),
{
    if cs.len() == 0 {
        Seq::empty()
    } else {
        index_entries(cs.drop_last(), docs.drop_last(), now) + index_triple(
            cs.last(),
            docs.last(),
            now,
        )
    }
}

/// The whole dump tree, in write order: the five fixed top-level files,
/// three files per index, then the batch queue and the task queue.
pub open spec fn dump_tree(
    cs: Seq<ConfigView>,
    docs: Seq<Seq<char>>,
    now: Seq<char>,
    iuid: Seq<char>,
    k0: Seq<char>,
    k1: Seq<char>,
    k2: Seq<char>,
) -> Seq<FileView> {
    top_entries(now, iuid, k0, k1, k2) + index_entries(cs, docs, now) + seq![
        FileView { path: "batches/queue.jsonl"@, content: cat_lines(seq![batch_line(cs, now)]) },
        FileView { path: "tasks/queue.jsonl"@, content: cat_lines(tasks_lines(cs, now)) },
    ]
}

fn index_path(name: &str, tail: &str) -> (r: String)
    ensures
        r@ == "indexes/"@ + name@ + tail@,
{
    let mut p = "indexes/".to_owned();
    p.append(name);
    p.append(tail);
    proof {
        assert(p@ =~= "indexes/"@ + name@ + tail@);
    }
    p
}

/// Builds the whole dump tree from the merged configurations, the already
/// converted documents of each index, the run timestamp, and the fresh
/// identifiers: the instance identifier and the three API key identifiers.
pub fn build_dump_tree(
    configs: &Vec<IndexConfig>,
    docs: &Vec<String>,
    now: &str,
    instance_uid: &str,
    key_uids: &Vec<String>,
) -> (r: Vec<DumpFile>)
    requires
        docs@.len() == configs@.len(),
        key_uids@.len() == 3,
    ensures
        r.deep_view() == dump_tree(
            configs.deep_view(),
            docs.deep_view(),
            now@,
            instance_uid@,
            key_uids.deep_view()[0],
            key_uids.deep_view()[1],
            key_uids.deep_view()[2],
        ),
{
    let ghost cv = configs.deep_view();
    let ghost dv = docs.deep_view();
    let ghost k0 = key_uids.deep_view()[0];
    let ghost k1 = key_uids.deep_view()[1];
    let ghost k2 = key_uids.deep_view()[2];
    let mut out: Vec<DumpFile> = Vec::new();
    out.push(DumpFile { path: "metadata.json".to_owned(), content: render_metadata(now) });
    out.push(DumpFile { path: "instance_uid".to_owned(), content: instance_uid.to_owned() });
    proof {
        assert(key_uids.deep_view()[0] == key_uids@[0]@);
        assert(key_uids.deep_view()[1] == key_uids@[1]@);
        assert(key_uids.deep_view()[2] == key_uids@[2]@);
    }
    let keys = render_keys(
        now,
        key_uids[0].as_str(),
        key_uids[1].as_str(),
        key_uids[2].as_str(),
    );
    out.push(DumpFile { path: "keys.jsonl".to_owned(), content: keys });
    out.push(
        DumpFile { path: "network.json".to_owned(), content: "{\"self\":null,\"remotes\":{}}".to_owned() },
    );
    out.push(
        DumpFile {
            path: "experimental-features.json".to_owned(),
            content:
                "{\"metrics\":false,\"logsRoute\":false,\"editDocumentsByFunction\":false,\"containsFilter\":false,\"network\":false,\"getTaskDocumentsRoute\":false,\"compositeEmbedders\":false,\"chatCompletions\":false}".to_owned(),
        },
    );
    let ghost top = top_entries(now@, instance_uid@, k0, k1, k2);
    proof {
        assert(out.deep_view() =~~= top + index_entries(cv.take(0), dv.take(0), now@));
    }
    let mut i: usize = 0;
    while i < configs.len()
        invariant
            0 <= i <= configs.len(),
            cv == configs.deep_view(),
            dv == docs.deep_view(),
            cv.len() == configs@.len(),
            dv.len() == docs@.len(),
            dv.len() == cv.len(),
            top == top_entries(now@, instance_uid@, k0, k1, k2),
            out.deep_view() == top + index_entries(cv.take(i as int), dv.take(i as int), now@),
        decreases configs.len() - i,
    {
        let c = &configs[i];
        let meta = render_index_metadata(c.index.as_str(), now);
        out.push(
            DumpFile { path: index_path(c.index.as_str(), "/metadata.json"), content: meta },
        );
        let settings = render_settings(&c.displayed, &c.searchable, &c.filterable);
        out.push(
            DumpFile { path: index_path(c.index.as_str(), "/settings.json"), content: settings },
        );
        out.push(
            DumpFile {
                path: index_path(c.index.as_str(), "/documents.jsonl"),
                content: docs[i].clone(),
            },
        );
        proof {
            assert(cv[i as int] == configs@[i as int].deep_view());
            assert(dv[i as int] == docs@[i as int]@);
            let pre = top + index_entries(cv.take(i as int), dv.take(i as int), now@);
            let triple = index_triple(cv[i as int], dv[i as int], now@);
            assert(out.deep_view().len() == pre.len() + 3);
            assert(forall|k: int| 0 <= k < pre.len() ==> out.deep_view()[k] == pre[k]);
            assert(out.deep_view()[pre.len() as int] =~~= triple[0]);
            assert(out.deep_view()[pre.len() as int + 1] =~~= triple[1]);
            assert(out.deep_view()[pre.len() as int + 2] =~~= triple[2]);
            assert(out.deep_view() =~~= pre + triple);
            assert(cv.take(i + 1).drop_last() =~= cv.take(i as int));
            assert(dv.take(i + 1).drop_last() =~= dv.take(i as int));
            assert(cv.take(i + 1).last() == cv[i as int]);
            assert(dv.take(i + 1).last() == dv[i as int]);
            assert(index_entries(cv.take(i + 1), dv.take(i + 1), now@) == index_entries(
                cv.take(i as int),
                dv.take(i as int),
                now@,
            ) + index_triple(cv[i as int], dv[i as int], now@));
            assert(out.deep_view() =~~= top + index_entries(cv.take(i + 1), dv.take(i + 1), now@));
        }
        i = i + 1;
    }
    let batch = render_batch(configs, now);
    out.push(DumpFile { path: "batches/queue.jsonl".to_owned(), content: batch });
    let tasks = render_tasks(configs, now);
    out.push(DumpFile { path: "tasks/queue.jsonl".to_owned(), content: tasks });
    proof {
        assert(cv.take(cv.len() as int) =~= cv);
        assert(dv.take(dv.len() as int) =~= dv);
        assert(out.deep_view() =~~= dump_tree(cv, dv, now@, instance_uid@, k0, k1, k2));
    }
    out
}

/// The strategy the document converter runs: structured parsing, or the
/// lossy line-streaming shape match.
#[derive(Debug, Clone, Copy)]
pub enum Strategy {
    Structured,
    StreamingLines,
}

/// The converted documents file of each index: its sources' records,
/// one per line, under the given strategy.
pub open spec fn converted_docs(sources: Seq<Seq<Seq<char>>>, st: Strategy) -> Seq<Seq<char>> {
    Seq::new(
        sources.len(),
        |i: int|
            match st {
                Strategy::Structured => cat_lines(structured_records(sources[i])),
                Strategy::StreamingLines => cat_lines(stream_records(sources[i])),
            },
    )
}

/// Generates the whole dump for the merged configurations: converts every
/// index's sources under the given strategy, draws the run timestamp and
/// the fresh identifiers, and assembles the tree. Under the structured
/// strategy it fails — naming the first offending file — exactly when some
/// source is not a JSON document with a top-level array; the streaming
/// strategy never fails.
pub fn generate_dump(
    configs: &Vec<IndexConfig>,
    sources: &Vec<Vec<String>>,
    strategy: Strategy,
) -> (r: Result<Vec<DumpFile>, FormatError>)
    requires
        sources@.len() == configs@.len(),
        forall|i: int|
            0 <= i < sources@.len() ==> sources@[i]@.len() == configs.deep_view()[i].files.len(),
    ensures
        strategy is StreamingLines ==> r is Ok,
        r matches Ok(files) ==> files@.len() == 7 + 3 * configs@.len(),
        strategy is Structured ==> (r is Ok <==> forall|i: int|
            0 <= i < sources.deep_view().len() ==> all_arrays(sources.deep_view()[i])),
        r matches Ok(files) ==> exists|now: Seq<char>, iuid: Seq<char>, k0: Seq<char>, k1: Seq<
            char,
        >, k2: Seq<char>|
            iuid.len() == 36 && files.deep_view() == dump_tree(
                configs.deep_view(),
                converted_docs(sources.deep_view(), strategy),
                now,
                iuid,
                k0,
                k1,
                k2,
            ),
        r matches Err(e) ==> strategy is Structured && exists|i: int, j: int|
            0 <= i < sources.deep_view().len() && 0 <= j < sources.deep_view()[i].len()
                && json_array_elems(sources.deep_view()[i][j]) is None && (forall|k: int|
                0 <= k < i ==> all_arrays(sources.deep_view()[k])) && (forall|k: int|
                0 <= k < j ==> json_array_elems(sources.deep_view()[i][k]) is Some) && e.file@
                == configs.deep_view()[i].files[j],
{
    let ghost sv = sources.deep_view();
    let ghost cv = configs.deep_view();
    let ghost target = converted_docs(sv, strategy);
    let mut docs: Vec<String> = Vec::new();
    let mut i: usize = 0;
    while i < sources.len()
        invariant
            0 <= i <= sources.len(),
            sv == sources.deep_view(),
            cv == configs.deep_view(),
            sv.len() == sources@.len(),
            sources@.len() == configs@.len(),
            forall|k: int| 0 <= k < sv.len() ==> sources@[k]@.len() == cv[k].files.len(),
            target == converted_docs(sv, strategy),
            docs@.len() == i,
            forall|k: int| 0 <= k < i ==> docs.deep_view()[k] == target[k],
            strategy is Structured ==> forall|k: int| 0 <= k < i ==> all_arrays(sv[k]),
        decreases sources.len() - i,
    {
        proof {
            assert(sv[i as int] == sources@[i as int].deep_view());
        }
        match strategy {
            Strategy::StreamingLines => {
                let d = convert_streaming(&sources[i]);
                docs.push(d);
            },
            Strategy::Structured => {
                match convert_structured(&sources[i]) {
                    Ok(d) => {
                        docs.push(d);
                    },
                    Err(j) => {
                        proof {
                            let jj = j as int;
                            assert(cv[i as int].files[jj] == configs@[i as int].files@[jj]@);
                        }
                        return Err(FormatError { file: configs[i].files[j].clone() });
                    },
                }
            },
        }
        i = i + 1;
    }
    let now = now_rfc3339();
    let iuid = fresh_uuid();
    let mut key_uids: Vec<String> = Vec::new();
    key_uids.push(fresh_uuid());
    key_uids.push(fresh_uuid());
    key_uids.push(fresh_uuid());
    proof {
        assert(docs.deep_view() =~= target);
        if strategy is Structured {
            assert(forall|k: int| 0 <= k < sv.len() ==> all_arrays(sv[k]));
        }
    }
    let tree = build_dump_tree(configs, &docs, now.as_str(), iuid.as_str(), &key_uids);
    proof {
        let k0 = key_uids.deep_view()[0];
        let k1 = key_uids.deep_view()[1];
        let k2 = key_uids.deep_view()[2];
        lemma_tree_counts(cv, target, now@, iuid@, k0, k1, k2);
        assert(tree.deep_view().len() == tree@.len());
        assert(iuid@.len() == 36 && tree.deep_view() == dump_tree(
            cv,
            target,
            now@,
            iuid@,
            k0,
            k1,
            k2,
        ));
    }
    Ok(tree)
}

proof fn lemma_index_entries_len(cs: Seq<ConfigView>, docs: Seq<Seq<char>>, now: Seq<char>)
    ensures
        index_entries(cs, docs, now).len() == 3 * cs.len(),
    decreases cs.len(),
{
    if cs.len() > 0 {
        lemma_index_entries_len(cs.drop_last(), docs.drop_last(), now);
    }
}

/// The three entries of configuration `i` sit at positions `3 * i` of the
/// per-index files, whatever follows them.
pub proof fn lemma_index_entries_at(
    cs: Seq<ConfigView>,
    docs: Seq<Seq<char>>,
    now: Seq<char>,
    i: int,
)
    requires
        0 <= i < cs.len(),
        docs.len() == cs.len(),
    ensures
        index_entries(cs, docs, now).subrange(3 * i, 3 * i + 3) == index_triple(
            cs[i],
            docs[i],
            now,
        ),
    decreases cs.len(),
{
    lemma_index_entries_len(cs, docs, now);
    if i == cs.len() - 1 {
        lemma_index_entries_len(cs.drop_last(), docs.drop_last(), now);
        assert(index_entries(cs, docs, now).subrange(3 * i, 3 * i + 3) =~= index_triple(
            cs[i],
            docs[i],
            now,
        ));
    } else {
        lemma_index_entries_at(cs.drop_last(), docs.drop_last(), now, i);
        lemma_index_entries_len(cs.drop_last(), docs.drop_last(), now);
        assert(cs.drop_last()[i] == cs[i]);
        assert(docs.drop_last()[i] == docs[i]);
        assert(index_entries(cs, docs, now).subrange(3 * i, 3 * i + 3) =~= index_entries(
            cs.drop_last(),
            docs.drop_last(),
            now,
        ).subrange(3 * i, 3 * i + 3));
    }
}

/// Law: the tree holds the five fixed top-level files, three files per
/// configuration, and the two queue files; the task queue holds exactly
/// one line per configuration.
pub proof fn lemma_tree_counts(
    cs: Seq<ConfigView>,
    docs: Seq<Seq<char>>,
    now: Seq<char>,
    iuid: Seq<char>,
    k0: Seq<char>,
    k1: Seq<char>,
    k2: Seq<char>,
)
    ensures
        dump_tree(cs, docs, now, iuid, k0, k1, k2).len() == 7 + 3 * cs.len(),
        index_entries(cs, docs, now).len() == 3 * cs.len(),
        tasks_lines(cs, now).len() == cs.len(),
{
    lemma_index_entries_len(cs, docs, now);
}

/// Law: for a merged command line, the number of per-index directories in
/// the tree and the number of task-queue lines both equal the number of
/// distinct declared index names.
pub proof fn lemma_dump_counts_per_name(cli: CliView, docs: Seq<Seq<char>>, now: Seq<char>)
    ensures
        distinct_names(merged_configs(cli)),
        index_entries(merged_configs(cli), docs, now).len() == 3 * names_of(
            raw_configs(cli),
        ).to_set().len(),
        tasks_lines(merged_configs(cli), now).len() == names_of(raw_configs(cli)).to_set().len(),
{
    lemma_merged_one_per_name(raw_configs(cli));
    lemma_index_entries_len(merged_configs(cli), docs, now);
}

/// Law: the documents files do not depend on the run timestamp or the
/// fresh identifiers — two trees over the same configurations and
/// converted documents hold byte-identical documents entries.
pub proof fn lemma_documents_stable(
    cs: Seq<ConfigView>,
    docs: Seq<Seq<char>>,
    now1: Seq<char>,
    iuid1: Seq<char>,
    ka0: Seq<char>,
    ka1: Seq<char>,
    ka2: Seq<char>,
    now2: Seq<char>,
    iuid2: Seq<char>,
    kb0: Seq<char>,
    kb1: Seq<char>,
    kb2: Seq<char>,
    i: int,
)
    requires
        0 <= i < cs.len(),
        docs.len() == cs.len(),
    ensures
        dump_tree(cs, docs, now1, iuid1, ka0, ka1, ka2)[5 + 3 * i + 2] == dump_tree(
            cs,
            docs,
            now2,
            iuid2,
            kb0,
            kb1,
            kb2,
        )[5 + 3 * i + 2],
        dump_tree(cs, docs, now1, iuid1, ka0, ka1, ka2)[5 + 3 * i + 2].content == docs[i],
{
    lemma_index_entries_len(cs, docs, now1);
    lemma_index_entries_len(cs, docs, now2);
    lemma_index_entries_at(cs, docs, now1, i);
    lemma_index_entries_at(cs, docs, now2, i);
    let t1 = dump_tree(cs, docs, now1, iuid1, ka0, ka1, ka2);
    let t2 = dump_tree(cs, docs, now2, iuid2, kb0, kb1, kb2);
    assert(t1[5 + 3 * i + 2] == index_entries(cs, docs, now1)[3 * i + 2]);
    assert(t2[5 + 3 * i + 2] == index_entries(cs, docs, now2)[3 * i + 2]);
    assert(index_entries(cs, docs, now1)[3 * i + 2] == index_entries(cs, docs, now1).subrange(
        3 * i,
        3 * i + 3,
    )[2]);
    assert(index_entries(cs, docs, now2)[3 * i + 2] == index_entries(cs, docs, now2).subrange(
        3 * i,
        3 * i + 3,
    )[2]);
}

} // verus!
