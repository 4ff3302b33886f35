//! Turns JSON array sources into newline-delimited JSON, one record per
//! line, by either of two strategies.
//!
//! The structured strategy parses each source as JSON, rejects anything
//! that is not a top-level array, and writes each element compactly on its
//! own line: robust for any valid JSON. The line-streaming strategy keeps
//! exactly the raw lines that, once trailing whitespace is dropped, start
//! with `{` and end with `},` — the shape of a pretty-printed array with
//! one object per line — strips the trailing comma, and silently drops
//! every other line: bounded memory, but lossy on any other shape.

use vstd::prelude::*;
use vstd::string::StrSliceExecFns;
use vstd::string::StringExecFns;
use crate::text::{
    split_seq, cat_lines, rtrim, rtrim_str, split_on, lemma_cat_lines_snoc,
    lemma_split_no_sep, lemma_rtrim_keeps_absence, lemma_split_cat_lines,
};
use crate::json::{json_array_elems, parse_array_elements};

verus! {

/// Whether a raw line, once trailing whitespace is dropped, has the record
/// shape the line-streaming strategy keeps: it starts with `{` and ends
/// with `},`.
pub open spec fn keeps_line(t: Seq<char>) -> bool {
    t.len() >= 2 && t[0] == '{' && t[t.len() - 2] == '}' && t[t.len() - 1] == ','
}

/// The records the line-streaming strategy keeps from the raw lines `ls`:
/// each kept line with trailing whitespace and the trailing comma removed,
/// in order.
pub open spec fn stream_kept(ls: Seq<Seq<char>>) -> Seq<Seq<char>>
    decreases ls.len(),
{
    if ls.len() == 0 {
        Seq::empty()
    } else {
        stream_kept(ls.drop_last()) + (if keeps_line(rtrim(ls.last())) {
            seq![rtrim(ls.last()).drop_last()]
        } else {
            Seq::empty()
        })
    }
}

/// The records the line-streaming strategy takes from one source text.
pub open spec fn stream_one(s: Seq<char>) -> Seq<Seq<char>> {
    stream_kept(split_seq(s, '\n'))
}

/// The records of all sources of one index, concatenated in declaration
/// order.
pub open spec fn stream_records(ts: Seq<Seq<char>>) -> Seq<Seq<char>>
    decreases ts.len(),
{
    if ts.len() == 0 {
        Seq::empty()
    } else {
        stream_records(ts.drop_last()) + stream_one(ts.last())
    }
}

/// No record of the line-streaming strategy contains a newline: each is
/// cut from a single raw line.
pub proof fn lemma_stream_records_no_newline(ts: Seq<Seq<char>>)
    ensures
        forall|i: int, j: int|
            0 <= i < stream_records(ts).len() && 0 <= j < stream_records(ts)[i].len()
                ==> stream_records(ts)[i][j] != '\n',
    decreases ts.len(),
{
    if ts.len() > 0 {
        lemma_stream_records_no_newline(ts.drop_last());
        lemma_split_no_sep(ts.last(), '\n');
        lemma_stream_kept_no_newline(split_seq(ts.last(), '\n'));
        let r = stream_records(ts);
        let p = stream_records(ts.drop_last());
        let q = stream_one(ts.last());
        assert(forall|i: int| 0 <= i < p.len() ==> r[i] == p[i]);
        assert(forall|i: int| p.len() <= i < r.len() ==> r[i] == q[i - p.len()]);
    }
}

proof fn lemma_stream_kept_no_newline(ls: Seq<Seq<char>>)
    requires
        forall|i: int, j: int| 0 <= i < ls.len() && 0 <= j < ls[i].len() ==> ls[i][j] != '\n',
    ensures
        forall|i: int, j: int|
            0 <= i < stream_kept(ls).len() && 0 <= j < stream_kept(ls)[i].len() ==> stream_kept(
                ls,
            )[i][j] != '\n',
    decreases ls.len(),
{
    if ls.len() > 0 {
        assert(forall|i: int, j: int|
            0 <= i < ls.drop_last().len() && 0 <= j < ls.drop_last()[i].len()
                ==> ls.drop_last()[i][j] != '\n');
        lemma_stream_kept_no_newline(ls.drop_last());
        lemma_rtrim_keeps_absence(ls.last(), '\n');
        let r = stream_kept(ls);
        let p = stream_kept(ls.drop_last());
        assert(forall|i: int| 0 <= i < p.len() ==> r[i] == p[i]);
        if keeps_line(rtrim(ls.last())) {
            let rec = rtrim(ls.last()).drop_last();
            assert(r[p.len() as int] == rec);
            assert(forall|j: int| 0 <= j < rec.len() ==> rec[j] == rtrim(ls.last())[j]);
        }
    }
}

/// Law: the streamed output, split on newlines, is exactly the kept
/// records in order, followed by the empty remainder after the final
/// newline.
pub proof fn lemma_stream_round_trip(ts: Seq<Seq<char>>)
    ensures
        split_seq(cat_lines(stream_records(ts)), '\n') == stream_records(ts) + seq![
            Seq::<char>::empty(),
        ],
{
    lemma_stream_records_no_newline(ts);
    lemma_split_cat_lines(stream_records(ts));
}

/// Converts the source texts of one index by the line-streaming strategy:
/// every raw line of the record shape becomes one output line with the
/// trailing comma stripped; every other line is dropped.
pub fn convert_streaming(texts: &Vec<String>) -> (r: String)
    ensures
        r@ == cat_lines(stream_records(texts.deep_view())),
{
    let ghost tv = texts.deep_view();
    let mut out = String::new();
    let mut i: usize = 0;
    proof {
        assert(tv.take(0) =~= Seq::<Seq<char>>::empty());
        assert(out@ =~= cat_lines(stream_records(tv.take(0))));
    }
    while i < texts.len()
        invariant
            0 <= i <= texts.len(),
            tv == texts.deep_view(),
            tv.len() == texts@.len(),
            out@ == cat_lines(stream_records(tv.take(i as int))),
        decreases texts.len() - i,
    {
        let lines = split_on(texts[i].as_str(), '\n');
        let ghost lv = lines.deep_view();
        proof {
            assert(tv[i as int] == texts@[i as int]@);
        }
        let mut j: usize = 0;
        while j < lines.len()
            invariant
                0 <= j <= lines.len(),
                tv == texts.deep_view(),
                tv.len() == texts@.len(),
                0 <= i < texts.len(),
                lv == lines.deep_view(),
                lv.len() == lines@.len(),
                lv == split_seq(tv[i as int], '\n'),
                out@ == cat_lines(stream_records(tv.take(i as int)) + stream_kept(
                    lv.take(j as int),
                )),
            decreases lines.len() - j,
        {
            let t = rtrim_str(lines[j].as_str());
            proof {
                assert(lv[j as int] == lines@[j as int]@);
                assert(lv.take(j + 1).drop_last() =~= lv.take(j as int));
                assert(lv.take(j + 1).last() == lv[j as int]);
            }
            let n = t.as_str().unicode_len();
            let keep = n >= 2 && t.as_str().get_char(0) == '{' && t.as_str().get_char(n - 2) == '}'
                && t.as_str().get_char(n - 1) == ',';
            proof {
                assert(keep == keeps_line(rtrim(lv[j as int])));
            }
            if keep {
                let body = t.as_str().substring_char(0, n - 1);
                proof {
                    assert(body@ =~= rtrim(lv[j as int]).drop_last());
                }
                out.append(body);
                out.append("\n");
                proof {
                    reveal_strlit("\n");
                    assert("\n"@ =~= seq!['\n']);
                    let ghost pre = stream_records(tv.take(i as int)) + stream_kept(
                        lv.take(j as int),
                    );
                    lemma_cat_lines_snoc(pre, rtrim(lv[j as int]).drop_last());
                    assert(pre.push(rtrim(lv[j as int]).drop_last()) =~= stream_records(
                        tv.take(i as int),
                    ) + stream_kept(lv.take(j + 1)));
                    assert(out@ =~= cat_lines(
                        stream_records(tv.take(i as int)) + stream_kept(lv.take(j + 1)),
                    ));
                }
            } else {
                proof {
                    assert(stream_kept(lv.take(j + 1)) =~= stream_kept(lv.take(j as int)));
                }
            }
            j = j + 1;
        }
        proof {
            assert(lv.take(lv.len() as int) =~= lv);
            assert(tv.take(i + 1).drop_last() =~= tv.take(i as int));
            assert(tv.take(i + 1).last() == tv[i as int]);
            assert(stream_records(tv.take(i + 1)) == stream_records(tv.take(i as int))
                + stream_one(tv[i as int]));
        }
        i = i + 1;
    }
    proof {
        assert(tv.take(tv.len() as int) =~= tv);
    }
    out
}

/// Whether every source text is a JSON document with a top-level array.
pub open spec fn all_arrays(ts: Seq<Seq<char>>) -> bool {
    forall|i: int| 0 <= i < ts.len() ==> json_array_elems(ts[i]) is Some
}

/// The array elements a source contributes, compactly serialized; nothing
/// where the source is not an array.
pub open spec fn elems_of(t: Seq<char>) -> Seq<Seq<char>> {
    match json_array_elems(t) {
        Some(v) => v,
        None => Seq::empty(),
    }
}

/// The records of the structured strategy: the re-serialized array
/// elements of every source, in source order.
pub open spec fn structured_records(ts: Seq<Seq<char>>) -> Seq<Seq<char>>
    decreases ts.len(),
{
    if ts.len() == 0 {
        Seq::empty()
    } else {
        structured_records(ts.drop_last()) + elems_of(ts.last())
    }
}

/// Converts the source texts of one index by the structured strategy:
/// each source must parse as a JSON array, and each of its elements is
/// written compactly on its own line, in order. Fails with the position of
/// the first source that is not a JSON array.
pub fn convert_structured(texts: &Vec<String>) -> (r: Result<String, usize>)
    ensures
        r is Ok <==> all_arrays(texts.deep_view()),
        r matches Ok(s) ==> s@ == cat_lines(structured_records(texts.deep_view())),
        r matches Ok(s) ==> split_seq(s@, '\n') == structured_records(texts.deep_view()) + seq![
            Seq::<char>::empty(),
        ],
        r matches Err(j) ==> 0 <= j < texts.deep_view().len() && json_array_elems(
            texts.deep_view()[j as int],
        ) is None && forall|k: int|
            0 <= k < j ==> json_array_elems(texts.deep_view()[k]) is Some,
{
    let ghost tv = texts.deep_view();
    let mut out = String::new();
    let ghost mut recs: Seq<Seq<char>> = Seq::empty();
    let mut i: usize = 0;
    proof {
        assert(tv.take(0) =~= Seq::<Seq<char>>::empty());
        assert(out@ =~= cat_lines(structured_records(tv.take(0))));
    }
    while i < texts.len()
        invariant
            0 <= i <= texts.len(),
            tv == texts.deep_view(),
            tv.len() == texts@.len(),
            recs == structured_records(tv.take(i as int)),
            out@ == cat_lines(recs),
            forall|k: int| 0 <= k < i ==> json_array_elems(tv[k]) is Some,
            forall|a: int, b: int| 0 <= a < recs.len() && 0 <= b < recs[a].len() ==> recs[a][b]
                != '\n',
        decreases texts.len() - i,
    {
        proof {
            assert(tv[i as int] == texts@[i as int]@);
        }
        match parse_array_elements(texts[i].as_str()) {
            None => {
                return Err(i);
            },
            Some(elems) => {
                let ghost ev = elems.deep_view();
                proof {
                    assert(json_array_elems(tv[i as int]) == Some(ev));
                }
                let mut j: usize = 0;
                while j < elems.len()
                    invariant
                        0 <= j <= elems.len(),
                        ev == elems.deep_view(),
                        ev.len() == elems@.len(),
                        recs == structured_records(tv.take(i as int)) + ev.take(j as int),
                        out@ == cat_lines(recs),
                        forall|a: int, b: int|
                            0 <= a < recs.len() && 0 <= b < recs[a].len() ==> recs[a][b] != '\n',
                        forall|a: int, b: int|
                            0 <= a < ev.len() && 0 <= b < ev[a].len() ==> ev[a][b] != '\n',
                    decreases elems.len() - j,
                {
                    out.append(elems[j].as_str());
                    out.append("\n");
                    proof {
                        reveal_strlit("\n");
                        assert("\n"@ =~= seq!['\n']);
                        assert(ev[j as int] == elems@[j as int]@);
                        lemma_cat_lines_snoc(recs, ev[j as int]);
                        recs = recs.push(ev[j as int]);
                        assert(recs =~= structured_records(tv.take(i as int)) + ev.take(j + 1));
                        assert(out@ =~= cat_lines(recs));
                    }
                    j = j + 1;
                }
                proof {
                    assert(ev.take(ev.len() as int) =~= ev);
                    assert(tv.take(i + 1).drop_last() =~= tv.take(i as int));
                    assert(tv.take(i + 1).last() == tv[i as int]);
                    assert(elems_of(tv[i as int]) == ev);
                    assert(recs =~= structured_records(tv.take(i + 1)));
                }
            },
        }
        i = i + 1;
    }
    proof {
        assert(tv.take(tv.len() as int) =~= tv);
        lemma_split_cat_lines(recs);
    }
    Ok(out)
}

} // verus!

