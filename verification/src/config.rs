//! Index configuration: raw command-line values, comma-separated field
//! parsing, and the merge of repeated declarations of one index name.

use vstd::prelude::*;
use vstd::string::StringExecFns;
use crate::text::{split_seq, trimmed, split_on, trim_str, u64_to_string, dec_digits};

verus! {

/// A trimmed token kept only if it is non-empty.
pub open spec fn maybe_field(t: Seq<char>) -> Seq<Seq<char>> {
    if t.len() == 0 {
        Seq::empty()
    } else {
        seq![t]
    }
}

/// The kept tokens of already-split comma segments, in order.
pub open spec fn csv_fields(parts: Seq<Seq<char>>) -> Seq<Seq<char>>
    decreases parts.len(),
{
    if parts.len() == 0 {
        Seq::empty()
    } else {
        csv_fields(parts.drop_last()) + maybe_field(trimmed(parts.last()))
    }
}

/// The tokens of a comma-separated field: split on commas, each token
/// trimmed of whitespace, empty tokens dropped.
pub open spec fn csv_of(s: Seq<char>) -> Seq<Seq<char>> {
    csv_fields(split_seq(s, ','))
}

/// The raw command-line values, as the argument parser hands them over:
/// one entry of `index` and `files` per `--index`/`--files` occurrence, and
/// optional parallel attribute lists.
#[derive(Debug)]
pub struct Cli {
    pub index: Vec<String>,
    pub files: Vec<String>,
    pub displayed: Vec<String>,
    pub searchable: Vec<String>,
    pub filterable: Vec<String>,
}

/// The canonical configuration of one index after merging.
#[derive(Debug, Clone)]
pub struct IndexConfig {
    pub index: String,
    pub files: Vec<String>,
    pub displayed: Vec<String>,
    pub searchable: Vec<String>,
    pub filterable: Vec<String>,
}

/// The mathematical value of an `IndexConfig`.
#[verifier::ext_equal]
pub struct ConfigView {
    pub index: Seq<char>,
    pub files: Seq<Seq<char>>,
    pub displayed: Seq<Seq<char>>,
    pub searchable: Seq<Seq<char>>,
    pub filterable: Seq<Seq<char>>,
}

impl DeepView for IndexConfig {
    type V = ConfigView;

    open spec fn deep_view(&self) -> ConfigView {
        ConfigView {
            index: self.index@,
            files: self.files.deep_view(),
            displayed: self.displayed.deep_view(),
            searchable: self.searchable.deep_view(),
            filterable: self.filterable.deep_view(),
        }
    }
}

/// The mathematical value of a `Cli`.
#[verifier::ext_equal]
pub struct CliView {
    pub index: Seq<Seq<char>>,
    pub files: Seq<Seq<char>>,
    pub displayed: Seq<Seq<char>>,
    pub searchable: Seq<Seq<char>>,
    pub filterable: Seq<Seq<char>>,
}

impl DeepView for Cli {
    type V = CliView;

    open spec fn deep_view(&self) -> CliView {
        CliView {
            index: self.index.deep_view(),
            files: self.files.deep_view(),
            displayed: self.displayed.deep_view(),
            searchable: self.searchable.deep_view(),
            filterable: self.filterable.deep_view(),
        }
    }
}

/// Raised before any other work on malformed command-line input: the
/// `--index` and `--files` lists cannot be paired one to one, an index
/// name is empty once trimmed, or a source field holds no file at all.
#[derive(Debug)]
pub enum ConfigError {
    CountMismatch { index_count: usize, files_count: usize },
    EmptyIndexName { position: usize },
    EmptySourceList { position: usize },
}

impl ConfigError {
    /// A readable account of the fault.
    pub fn message(&self) -> (r: String)
        ensures
            self matches ConfigError::CountMismatch { index_count, files_count } ==> r@
                == dec_digits(index_count as int) + " index names but "@ + dec_digits(
                files_count as int,
            ) + " source lists were given"@,
            self matches ConfigError::EmptyIndexName { position } ==> r@
                == "empty index name at position "@ + dec_digits(position as int),
            self matches ConfigError::EmptySourceList { position } ==> r@
                == "no source files at position "@ + dec_digits(position as int),
    {
        match self {
            ConfigError::CountMismatch { index_count, files_count } => {
                let mut s = u64_to_string(*index_count as u64);
                s.append(" index names but ");
                let c = u64_to_string(*files_count as u64);
                s.append(c.as_str());
                s.append(" source lists were given");
                proof {
                    assert(s@ =~= dec_digits(*index_count as int) + " index names but "@
                        + dec_digits(*files_count as int) + " source lists were given"@);
                }
                s
            },
            ConfigError::EmptyIndexName { position } => {
                let mut s = "empty index name at position ".to_owned();
                let p = u64_to_string(*position as u64);
                s.append(p.as_str());
                s
            },
            ConfigError::EmptySourceList { position } => {
                let mut s = "no source files at position ".to_owned();
                let p = u64_to_string(*position as u64);
                s.append(p.as_str());
                s
            },
        }
    }
}

/// Splits a comma-separated field into its tokens: each token trimmed of
/// whitespace, empty tokens dropped.
pub fn split_csv(s: &str) -> (r: Vec<String>)
    ensures
        r.deep_view() == csv_of(s@),
{
    let parts = split_on(s, ',');
    let ghost pv = parts.deep_view();
    let mut r: Vec<String> = Vec::new();
    let mut i: usize = 0;
    while i < parts.len()
        invariant
            0 <= i <= parts.len(),
            pv == parts.deep_view(),
            pv == split_seq(s@, ','),
            pv.len() == parts@.len(),
            r.deep_view() == csv_fields(pv.take(i as int)),
        decreases parts.len() - i,
    {
        let t = trim_str(parts[i].as_str());
        proof {
            assert(pv.take(i + 1).drop_last() =~= pv.take(i as int));
            assert(pv.take(i + 1).last() == pv[i as int]);
            assert(pv[i as int] == parts@[i as int]@);
        }
        if !t.as_str().is_empty() {
            let ghost old_r = r.deep_view();
            r.push(t);
            proof {
                assert(r.deep_view() =~= old_r.push(trimmed(pv[i as int])));
                assert(r.deep_view() =~= csv_fields(pv.take(i + 1)));
            }
        } else {
            proof {
                assert(r.deep_view() =~= csv_fields(pv.take(i + 1)));
            }
        }
        i = i + 1;
    }
    proof {
        assert(pv.take(parts.len() as int) =~= pv);
    }
    r
}

/// The attribute set at position `i` of an optional parallel list: the
/// parsed field where the list has an entry there, the empty set where it
/// does not.
pub open spec fn attr_at(v: Seq<Seq<char>>, i: int) -> Seq<Seq<char>> {
    if 0 <= i < v.len() {
        csv_of(v[i])
    } else {
        Seq::empty()
    }
}

fn attr_field(v: &Vec<String>, i: usize) -> (r: Vec<String>)
    ensures
        r.deep_view() == attr_at(v.deep_view(), i as int),
{
    if i < v.len() {
        split_csv(v[i].as_str())
    } else {
        let r: Vec<String> = Vec::new();
        proof {
            assert(r.deep_view() =~= Seq::<Seq<char>>::empty());
        }
        r
    }
}

/// The raw configuration declared at position `i` of the command line:
/// trimmed index name, parsed source list, parsed attribute sets.
pub open spec fn raw_at(cli: CliView, i: int) -> ConfigView {
    ConfigView {
        index: trimmed(cli.index[i]),
        files: csv_of(cli.files[i]),
        displayed: attr_at(cli.displayed, i),
        searchable: attr_at(cli.searchable, i),
        filterable: attr_at(cli.filterable, i),
    }
}

/// All raw configurations of the command line, in declaration order.
pub open spec fn raw_configs(cli: CliView) -> Seq<ConfigView> {
    Seq::new(cli.index.len(), |i: int| raw_at(cli, i))
}

/// Position of the first configuration named `name`, or -1 if none is.
pub open spec fn find_name(cs: Seq<ConfigView>, name: Seq<char>) -> int
    decreases cs.len(),
{
    if cs.len() == 0 {
        -1
    } else if cs[0].index == name {
        0
    } else {
        let r = find_name(cs.drop_first(), name);
        if r < 0 {
            -1
        } else {
            r + 1
        }
    }
}

pub proof fn lemma_find_name_bounds(cs: Seq<ConfigView>, name: Seq<char>)
    ensures
        find_name(cs, name) < cs.len(),
        find_name(cs, name) >= 0 ==> cs[find_name(cs, name)].index == name,
        find_name(cs, name) < 0 ==> forall|i: int| 0 <= i < cs.len() ==> cs[i].index != name,
    decreases cs.len(),
{
    if cs.len() > 0 && cs[0].index != name {
        lemma_find_name_bounds(cs.drop_first(), name);
        assert(forall|i: int| 1 <= i < cs.len() ==> cs[i] == cs.drop_first()[i - 1]);
    }
}

/// A scan that saw no configuration named `name` before position `k`, and
/// one at `k` if `k` is in range, has found what `find_name` names.
pub proof fn lemma_find_name_scan(cs: Seq<ConfigView>, name: Seq<char>, k: int)
    requires
        0 <= k <= cs.len(),
        forall|i: int| 0 <= i < k ==> cs[i].index != name,
        k < cs.len() ==> cs[k].index == name,
    ensures
        find_name(cs, name) == if k < cs.len() {
            k
        } else {
            -1
        },
    decreases k,
{
    if cs.len() == 0 {
    } else if k == 0 {
    } else {
        lemma_find_name_scan(cs.drop_first(), name, k - 1);
    }
}

/// Folds one raw declaration into the configurations merged so far: a new
/// name is appended; a repeated name has its source list extended and its
/// attribute sets replaced by the newer ones.
pub open spec fn merge_one(acc: Seq<ConfigView>, c: ConfigView) -> Seq<ConfigView> {
    let j = find_name(acc, c.index);
    if 0 <= j < acc.len() {
        acc.update(
            j,
            ConfigView {
                index: acc[j].index,
                files: acc[j].files + c.files,
                displayed: c.displayed,
                searchable: c.searchable,
                filterable: c.filterable,
            },
        )
    } else {
        acc.push(c)
    }
}

/// The merge of a whole declaration sequence, first-seen order kept.
pub open spec fn merge_all(raw: Seq<ConfigView>) -> Seq<ConfigView>
    decreases raw.len(),
{
    if raw.len() == 0 {
        Seq::empty()
    } else {
        merge_one(merge_all(raw.drop_last()), raw.last())
    }
}

/// The canonical configurations of a command line: its raw declarations,
/// merged.
pub open spec fn merged_configs(cli: CliView) -> Seq<ConfigView> {
    merge_all(raw_configs(cli))
}

/// The index names of a configuration sequence, in order.
pub open spec fn names_of(cs: Seq<ConfigView>) -> Seq<Seq<char>> {
    cs.map_values(|c: ConfigView| c.index)
}

/// No two configurations share an index name.
pub open spec fn distinct_names(cs: Seq<ConfigView>) -> bool {
    forall|i: int, j: int| 0 <= i < j < cs.len() ==> cs[i].index != cs[j].index
}

/// Law: merging a repeated declaration keeps the length and the order,
/// extends the matching entry's source list, replaces its attribute sets
/// with the newer ones, and leaves every other entry unchanged.
pub proof fn lemma_merge_repeated(acc: Seq<ConfigView>, c: ConfigView)
    requires
        find_name(acc, c.index) >= 0,
    ensures
        merge_one(acc, c).len() == acc.len(),
        ({
            let j = find_name(acc, c.index);
            merge_one(acc, c)[j].index == acc[j].index && merge_one(acc, c)[j].files == acc[j].files
                + c.files && merge_one(acc, c)[j].displayed == c.displayed && merge_one(acc, c)[j]
                .searchable == c.searchable && merge_one(acc, c)[j].filterable == c.filterable
        }),
        forall|k: int|
            0 <= k < acc.len() && k != find_name(acc, c.index) ==> merge_one(acc, c)[k] == acc[k],
{
    lemma_find_name_bounds(acc, c.index);
}

/// Law: a declaration of a fresh name is appended unchanged.
pub proof fn lemma_merge_fresh(acc: Seq<ConfigView>, c: ConfigView)
    requires
        find_name(acc, c.index) < 0,
    ensures
        merge_one(acc, c) == acc.push(c),
{
}

/// Law: two declarations of one index name merge to a single configuration
/// holding the concatenated source lists and the second declaration's
/// attribute sets.
pub proof fn lemma_merge_two_same_name(a: ConfigView, b: ConfigView)
    requires
        a.index == b.index,
    ensures
        merge_all(seq![a, b]) == seq![
            ConfigView {
                index: a.index,
                files: a.files + b.files,
                displayed: b.displayed,
                searchable: b.searchable,
                filterable: b.filterable,
            },
        ],
{
    let two = seq![a, b];
    assert(two.drop_last() =~= seq![a]);
    assert(seq![a].drop_last() =~= Seq::<ConfigView>::empty());
    assert(merge_all(Seq::<ConfigView>::empty()) == Seq::<ConfigView>::empty());
    assert(merge_all(seq![a]) =~= seq![a]);
    assert(find_name(seq![a], b.index) == 0);
    assert(merge_all(two) =~~= seq![
        ConfigView {
            index: a.index,
            files: a.files + b.files,
            displayed: b.displayed,
            searchable: b.searchable,
            filterable: b.filterable,
        },
    ]);
}

/// Law: the merge keeps one configuration per distinct index name of the
/// raw declarations — the merged names are pairwise distinct, they are as a
/// set exactly the declared names, and the merged length is the number of
/// distinct declared names.
pub proof fn lemma_merged_one_per_name(raw: Seq<ConfigView>)
    ensures
        distinct_names(merge_all(raw)),
        names_of(merge_all(raw)).to_set() == names_of(raw).to_set(),
        merge_all(raw).len() == names_of(raw).to_set().len(),
    decreases raw.len(),
{
    broadcast use vstd::seq_lib::group_seq_lib_default, vstd::set::group_set_axioms;

    if raw.len() == 0 {
        assert(names_of(raw).to_set() =~= Set::<Seq<char>>::empty());
        assert(names_of(merge_all(raw)).to_set() =~= Set::<Seq<char>>::empty());
    } else {
        let prefix = raw.drop_last();
        let c = raw.last();
        lemma_merged_one_per_name(prefix);
        let m = merge_all(prefix);
        lemma_find_name_bounds(m, c.index);
        assert(names_of(raw) =~= names_of(prefix).push(c.index));
        names_of(prefix).lemma_push_to_set_commute(c.index);
        assert(names_of(raw).to_set() =~= names_of(prefix).to_set().insert(c.index));
        let j = find_name(m, c.index);
        if 0 <= j < m.len() {
            assert(names_of(merge_one(m, c)) =~= names_of(m));
            assert(names_of(m).to_set().contains(c.index)) by {
                assert(names_of(m)[j] == c.index);
            }
            assert(names_of(m).to_set().insert(c.index) =~= names_of(m).to_set());
            assert(distinct_names(merge_one(m, c))) by {
                assert(forall|k: int|
                    0 <= k < m.len() ==> merge_one(m, c)[k].index == m[k].index);
            }
        } else {
            assert(names_of(merge_one(m, c)) =~= names_of(m).push(c.index));
            assert(forall|k: int| 0 <= k < m.len() ==> m[k].index != c.index);
            assert(!names_of(m).to_set().contains(c.index)) by {
                if names_of(m).to_set().contains(c.index) {
                    let k = choose|k: int|
                        0 <= k < names_of(m).len() && names_of(m)[k] == c.index;
                    assert(m[k].index == c.index);
                }
            }
            assert(names_of(m).to_set().finite()) by {
                broadcast use vstd::seq_lib::seq_to_set_is_finite;

            }
            assert(names_of(m).to_set().insert(c.index).len() == names_of(m).to_set().len() + 1);
            names_of(m).lemma_push_to_set_commute(c.index);
            assert(names_of(merge_one(m, c)).to_set() =~= names_of(m).to_set().insert(c.index));
            assert(distinct_names(merge_one(m, c))) by {
                assert(forall|k: int| 0 <= k < m.len() ==> merge_one(m, c)[k] == m[k]);
                assert(merge_one(m, c)[m.len() as int] == c);
            }
        }
    }
}

/// A configuration fit for the rest of the pipeline: its index name is not
/// empty and it has at least one source file.
pub open spec fn well_formed(c: ConfigView) -> bool {
    c.index.len() > 0 && c.files.len() > 0
}

/// Law: merging keeps every configuration well formed — an appended entry
/// is a well-formed declaration, and extending a source list cannot empty
/// it.
pub proof fn lemma_merge_keeps_well_formed(raw: Seq<ConfigView>)
    requires
        forall|i: int| 0 <= i < raw.len() ==> well_formed(raw[i]),
    ensures
        forall|j: int| 0 <= j < merge_all(raw).len() ==> well_formed(#[trigger] merge_all(raw)[j]),
    decreases raw.len(),
{
    if raw.len() > 0 {
        assert(forall|i: int| 0 <= i < raw.drop_last().len() ==> well_formed(raw.drop_last()[i]));
        lemma_merge_keeps_well_formed(raw.drop_last());
        let m = merge_all(raw.drop_last());
        let c = raw.last();
        lemma_find_name_bounds(m, c.index);
        let j = find_name(m, c.index);
        if 0 <= j < m.len() {
            assert(merge_one(m, c)[j].files.len() == m[j].files.len() + c.files.len());
            assert(forall|k: int| 0 <= k < m.len() && k != j ==> merge_one(m, c)[k] == m[k]);
        } else {
            assert(forall|k: int| 0 <= k < m.len() ==> merge_one(m, c)[k] == m[k]);
            assert(merge_one(m, c)[m.len() as int] == c);
        }
    }
}

/// Turns the raw command-line values into one canonical configuration per
/// distinct index name, in first-seen order. Fails — before anything else
/// is done — exactly when the `--index` and `--files` lists differ in
/// length, when an index name is empty once trimmed, or when a source
/// field parses to no file at all; every returned configuration has a
/// non-empty name and a non-empty source list.
pub fn parse_args(cli: &Cli) -> (r: Result<Vec<IndexConfig>, ConfigError>)
    ensures
        r is Ok <==> cli.files@.len() == cli.index@.len() && (forall|i: int|
            0 <= i < cli.index@.len() ==> well_formed(#[trigger] raw_at(cli.deep_view(), i))),
        (r matches Err(ConfigError::CountMismatch { index_count, files_count })) <==> cli.files@
            .len() != cli.index@.len(),
        r matches Err(ConfigError::CountMismatch { index_count, files_count }) ==> index_count
            == cli.index@.len() && files_count == cli.files@.len(),
        r matches Err(ConfigError::EmptyIndexName { position }) ==> 0 <= position < cli.index@
            .len() && raw_at(cli.deep_view(), position as int).index.len() == 0 && (forall|k: int|
            0 <= k < position ==> well_formed(#[trigger] raw_at(cli.deep_view(), k))),
        r matches Err(ConfigError::EmptySourceList { position }) ==> 0 <= position < cli.index@
            .len() && raw_at(cli.deep_view(), position as int).index.len() > 0 && raw_at(
            cli.deep_view(),
            position as int,
        ).files.len() == 0 && (forall|k: int|
            0 <= k < position ==> well_formed(#[trigger] raw_at(cli.deep_view(), k))),
        r matches Ok(cs) ==> cs.deep_view() == merged_configs(cli.deep_view()),
        r matches Ok(cs) ==> forall|j: int|
            0 <= j < cs.deep_view().len() ==> well_formed(#[trigger] cs.deep_view()[j]),
{
    let n = cli.index.len();
    if cli.files.len() != n {
        return Err(ConfigError::CountMismatch { index_count: n, files_count: cli.files.len() });
    }
    let ghost raw = raw_configs(cli.deep_view());
    let mut v: usize = 0;
    while v < n
        invariant
            0 <= v <= n,
            n == cli.index@.len(),
            cli.files@.len() == n,
            raw == raw_configs(cli.deep_view()),
            raw.len() == n,
            forall|k: int| 0 <= k < n ==> #[trigger] raw_at(cli.deep_view(), k) == raw[k],
            forall|k: int| 0 <= k < v ==> well_formed(#[trigger] raw[k]),
        decreases n - v,
    {
        let name = trim_str(cli.index[v].as_str());
        let files = split_csv(cli.files[v].as_str());
        proof {
            assert(cli.index.deep_view()[v as int] == cli.index@[v as int]@);
            assert(cli.files.deep_view()[v as int] == cli.files@[v as int]@);
            assert(name@ == raw[v as int].index);
            assert(files.deep_view() == raw[v as int].files);
            assert(files.deep_view().len() == files@.len());
        }
        if name.as_str().is_empty() {
            proof {
                assert(raw_at(cli.deep_view(), v as int).index.len() == 0);
                assert(!well_formed(raw_at(cli.deep_view(), v as int)));
                assert(forall|k: int|
                    0 <= k < v ==> well_formed(#[trigger] raw_at(cli.deep_view(), k)));
            }
            return Err(ConfigError::EmptyIndexName { position: v });
        }
        if files.len() == 0 {
            proof {
                assert(raw_at(cli.deep_view(), v as int).index.len() > 0);
                assert(raw_at(cli.deep_view(), v as int).files.len() == 0);
                assert(!well_formed(raw_at(cli.deep_view(), v as int)));
                assert(forall|k: int|
                    0 <= k < v ==> well_formed(#[trigger] raw_at(cli.deep_view(), k)));
            }
            return Err(ConfigError::EmptySourceList { position: v });
        }
        v = v + 1;
    }
    proof {
        assert(forall|k: int| 0 <= k < n ==> #[trigger] raw_at(cli.deep_view(), k) == raw[k]);
        assert(forall|k: int|
            0 <= k < n ==> well_formed(#[trigger] raw_at(cli.deep_view(), k)));
        lemma_merge_keeps_well_formed(raw);
    }
    let mut out: Vec<IndexConfig> = Vec::new();
    let mut i: usize = 0;
    proof {
        assert(out.deep_view() =~= merge_all(raw.take(0)));
    }
    while i < n
        invariant
            0 <= i <= n,
            n == cli.index@.len(),
            cli.files@.len() == n,
            raw == raw_configs(cli.deep_view()),
            raw.len() == n,
            forall|k: int| 0 <= k < n ==> #[trigger] raw_at(cli.deep_view(), k) == raw[k],
            forall|k: int| 0 <= k < n ==> well_formed(#[trigger] raw[k]),
            forall|j: int|
                0 <= j < merge_all(raw).len() ==> well_formed(#[trigger] merge_all(raw)[j]),
            out.deep_view() == merge_all(raw.take(i as int)),
        decreases n - i,
    {
        let name = trim_str(cli.index[i].as_str());
        let mut files = split_csv(cli.files[i].as_str());
        let displayed = attr_field(&cli.displayed, i);
        let searchable = attr_field(&cli.searchable, i);
        let filterable = attr_field(&cli.filterable, i);
        let ghost c = raw[i as int];
        proof {
            assert(cli.index.deep_view()[i as int] == cli.index@[i as int]@);
            assert(cli.files.deep_view()[i as int] == cli.files@[i as int]@);
            assert(name@ == c.index);
            assert(files.deep_view() == c.files);
        }
        let mut j: usize = 0;
        let olen = out.len();
        while j < olen && !(out[j].index == name)
            invariant
                0 <= j <= olen,
                olen == out@.len(),
                forall|k: int| 0 <= k < j ==> out@[k].index@ != name@,
            decreases olen - j,
        {
            j = j + 1;
        }
        let ghost acc = out.deep_view();
        proof {
            assert(forall|k: int| 0 <= k < olen ==> acc[k].index == out@[k].index@);
            if j < olen {
                assert(out@[j as int].index@ == name@);
            }
            lemma_find_name_scan(acc, c.index, j as int);
        }
        if j < olen {
            let prev = out.remove(j);
            let mut new_files = prev.files;
            new_files.append(&mut files);
            let updated = IndexConfig {
                index: prev.index,
                files: new_files,
                displayed,
                searchable,
                filterable,
            };
            out.insert(j, updated);
            proof {
                assert(out.deep_view() =~~= merge_one(acc, c));
            }
        } else {
            out.push(
                IndexConfig { index: name, files, displayed, searchable, filterable },
            );
            proof {
                assert(out.deep_view() =~~= merge_one(acc, c));
            }
        }
        proof {
            assert(raw.take(i + 1).drop_last() =~= raw.take(i as int));
            assert(raw.take(i + 1).last() == raw[i as int]);
        }
        i = i + 1;
    }
    proof {
        assert(raw.take(n as int) =~= raw);
    }
    Ok(out)
}

} // verus!
