use vstd::prelude::*;
use vstd::slice::{slice_subrange, slice_to_vec};

verus! {

/// Error of a format reader: the payload does not parse under the
/// declared format. Distinct from a missing payload, which the caller
/// rejects before any reader runs.
#[derive(Clone, Copy, Debug, PartialEq, Eq, Structural)]
pub enum DocumentFormatError {
    MalformedPayload,
}

/// Index of the first newline byte, or the length when there is none.
pub open spec fn first_newline(s: Seq<u8>) -> nat
    decreases s.len(),
{
    if s.len() == 0 {
        0
    } else if s[0] == 10 {
        0
    } else {
        (1 + first_newline(s.drop_first())) as nat
    }
}

proof fn lemma_first_newline(s: Seq<u8>)
    ensures
        first_newline(s) <= s.len(),
        forall|j: int| 0 <= j < first_newline(s) ==> s[j] != 10,
        first_newline(s) < s.len() ==> s[first_newline(s) as int] == 10,
    decreases s.len(),
{
    if s.len() > 0 && s[0] != 10 {
        lemma_first_newline(s.drop_first());
        assert forall|j: int| 0 <= j < first_newline(s) implies s[j] != 10 by {
            if j > 0 {
                assert(s.drop_first()[j - 1] != 10);
            }
        }
        if first_newline(s) < s.len() {
            assert(s.drop_first()[first_newline(s) - 1] == 10);
        }
    }
}

/// Identifies the exact position of the first newline from a scan.
proof fn lemma_first_newline_is(s: Seq<u8>, k: int)
    requires
        0 <= k <= s.len(),
        forall|j: int| 0 <= j < k ==> s[j] != 10,
        k == s.len() || s[k] == 10,
    ensures
        first_newline(s) == k,
    decreases s.len(),
{
    if s.len() > 0 {
        if s[0] == 10 {
            assert(k == 0);
        } else {
            assert(k > 0);
            assert forall|j: int| 0 <= j < k - 1 implies s.drop_first()[j] != 10 by {
                assert(s[j + 1] != 10);
            }
            lemma_first_newline_is(s.drop_first(), k - 1);
        }
    }
}

/// The payload cut at newline bytes: each line excludes its terminator,
/// and a trailing newline does not open an extra empty line.
pub open spec fn lines_of(s: Seq<u8>) -> Seq<Seq<u8>>
    decreases s.len(),
    via lines_of_dec
{
    if s.len() == 0 {
        Seq::empty()
    } else {
        let n = first_newline(s) as int;
        if n == s.len() {
            seq![s]
        } else {
            seq![s.subrange(0, n)] + lines_of(s.subrange(n + 1, s.len() as int))
        }
    }
}

#[via_fn]
proof fn lines_of_dec(s: Seq<u8>) {
    lemma_first_newline(s);
}

/// The lines that carry content: blank lines separate records but carry
/// none themselves.
pub open spec fn keep_nonempty(s: Seq<Seq<u8>>) -> Seq<Seq<u8>> {
    s.filter(|l: Seq<u8>| l.len() > 0)
}

/// The non-empty lines of the payload, in order.
pub open spec fn nonempty_lines(s: Seq<u8>) -> Seq<Seq<u8>> {
    keep_nonempty(lines_of(s))
}

/// Whether the bytes parse as one JSON document. Relied upon through
/// `json_document_valid`; the result depends on the bytes alone.
pub uninterp spec fn json_valid(s: Seq<u8>) -> bool;

/// Relies on serde_json::from_slice with the generic JSON value as the
/// target: whether the bytes parse as a single JSON document is a
/// function of the bytes alone.
#[verifier::external_body]
fn json_document_valid(b: &[u8]) -> (r: bool)
    ensures
        r == json_valid(b@),
{
    serde_json::from_slice::<serde_json::Value>(b).is_ok()
}

/// The number of elements when the bytes parse as a JSON array, and
/// nothing otherwise. Relied upon through `json_array_len`; the result
/// depends on the bytes alone.
pub uninterp spec fn json_array_count(s: Seq<u8>) -> Option<int>;

/// Relies on serde_json::from_slice with a vector of JSON values as the
/// target: it parses exactly the payloads that are JSON arrays, and the
/// vector's length is the array's element count.
#[verifier::external_body]
fn json_array_len(b: &[u8]) -> (r: Option<u64>)
    ensures
        r is Some <==> json_array_count(b@) is Some,
        r is Some ==> r.unwrap() as int == json_array_count(b@).unwrap(),
{
    serde_json::from_slice::<Vec<serde_json::Value>>(b).ok().map(|v| v.len() as u64)
}

/// Cuts the payload into its non-empty lines.
fn split_nonempty_lines(payload: &[u8]) -> (r: Vec<Vec<u8>>)
    ensures
        r.deep_view() == nonempty_lines(payload@),
{
    let mut lines: Vec<Vec<u8>> = Vec::new();
    let mut start: usize = 0;
    let mut i: usize = 0;
    proof {
        assert(payload@.subrange(0, payload@.len() as int) =~= payload@);
        assert(lines.deep_view() + lines_of(payload@) =~~= lines_of(payload@));
    }
    while i < payload.len()
        invariant
            start <= i <= payload@.len(),
            forall|j: int| start <= j < i ==> payload@[j] != 10,
            lines_of(payload@) == lines.deep_view() + lines_of(
                payload@.subrange(start as int, payload@.len() as int),
            ),
        decreases payload@.len() - i,
    {
        if payload[i] == 10 {
            let ghost rest = payload@.subrange(start as int, payload@.len() as int);
            let line = slice_subrange(payload, start, i);
            let ghost lpre = lines.deep_view();
            lines.push(slice_to_vec(line));
            proof {
                assert forall|j: int| 0 <= j < i - start implies rest[j] != 10 by {
                    assert(payload@[start + j] != 10);
                }
                assert(rest[i - start] == payload@[i as int]);
                lemma_first_newline_is(rest, i - start);
                assert(first_newline(rest) == i - start);
                assert(lines_of(rest) == seq![rest.subrange(0, i - start)] + lines_of(
                    rest.subrange(i - start + 1, rest.len() as int),
                ));
                assert(rest.subrange(0, i - start) =~= payload@.subrange(start as int, i as int));
                assert(rest.subrange(i - start + 1, rest.len() as int) =~= payload@.subrange(
                    i as int + 1,
                    payload@.len() as int,
                ));
                assert(lines.deep_view() =~~= lpre + seq![
                    payload@.subrange(start as int, i as int),
                ]);
                assert(lines.deep_view() + lines_of(
                    payload@.subrange(i as int + 1, payload@.len() as int),
                ) =~~= lines_of(payload@));
            }
            start = i + 1;
        }
        i = i + 1;
    }
    let ghost rest = payload@.subrange(start as int, payload@.len() as int);
    if start < payload.len() {
        let line = slice_subrange(payload, start, payload.len());
        let ghost lpre = lines.deep_view();
        lines.push(slice_to_vec(line));
        proof {
            assert forall|j: int| 0 <= j < rest.len() implies rest[j] != 10 by {
                assert(payload@[start + j] != 10);
            }
            lemma_first_newline_is(rest, rest.len() as int);
            assert(lines_of(rest) == seq![rest]);
            assert(lines.deep_view() =~~= lpre + seq![rest]);
            assert(lines.deep_view() =~~= lines_of(payload@));
        }
    } else {
        proof {
            assert(rest =~= Seq::<u8>::empty());
            assert(lines.deep_view() + lines_of(rest) =~~= lines.deep_view());
            assert(lines.deep_view() =~~= lines_of(payload@));
        }
    }
    let mut out: Vec<Vec<u8>> = Vec::new();
    let mut q: usize = 0;
    let ghost all = lines.deep_view();
    proof {
        reveal(Seq::filter);
        assert(all.subrange(0, 0) =~= Seq::<Seq<u8>>::empty());
        assert(keep_nonempty(Seq::<Seq<u8>>::empty()) =~~= Seq::<Seq<u8>>::empty());
        assert(out.deep_view() =~~= keep_nonempty(all.subrange(0, 0)));
    }
    while q < lines.len()
        invariant
            q <= lines@.len(),
            all == lines.deep_view(),
            all.len() == lines@.len(),
            out.deep_view() == keep_nonempty(all.subrange(0, q as int)),
        decreases lines@.len() - q,
    {
        let ghost opre = out.deep_view();
        proof {
            assert(all.subrange(0, q as int + 1).drop_last() =~= all.subrange(0, q as int));
            assert(all.subrange(0, q as int + 1).last() == all[q as int]);
            assert(all[q as int] =~= lines@[q as int].deep_view());
        }
        if lines[q].len() > 0 {
            out.push(slice_to_vec(lines[q].as_slice()));
            proof {
                reveal(Seq::filter);
                assert(all[q as int].len() > 0);
                assert(out.deep_view() =~~= opre.push(all[q as int]));
                assert(keep_nonempty(all.subrange(0, q as int + 1)) =~~= opre.push(
                    all[q as int],
                ));
            }
        } else {
            proof {
                reveal(Seq::filter);
                assert(all[q as int].len() == 0);
                assert(keep_nonempty(all.subrange(0, q as int + 1)) =~~= opre);
            }
        }
        q = q + 1;
    }
    proof {
        assert(all.subrange(0, lines@.len() as int) =~= all);
    }
    out
}

/// Reads a newline-delimited payload: each non-empty line must be one
/// JSON document; the normalized records are exactly those lines and the
/// count is their number. A line that does not parse aborts the whole
/// read.
pub fn read_ndjson(payload: &[u8]) -> (r: Result<(u64, Vec<Vec<u8>>), DocumentFormatError>)
    ensures
        r is Ok <==> (forall|q: int|
            0 <= q < nonempty_lines(payload@).len() ==> json_valid(
                #[trigger] nonempty_lines(payload@)[q],
            )),
        r is Ok ==> r.unwrap().1.deep_view() == nonempty_lines(payload@) && r.unwrap().0 as int
            == nonempty_lines(payload@).len(),
        r is Err ==> r == Err::<(u64, Vec<Vec<u8>>), DocumentFormatError>(
            DocumentFormatError::MalformedPayload,
        ),
{
    let docs = split_nonempty_lines(payload);
    let mut q: usize = 0;
    while q < docs.len()
        invariant
            q <= docs@.len(),
            docs.deep_view() == nonempty_lines(payload@),
            docs.deep_view().len() == docs@.len(),
            forall|t: int| 0 <= t < q ==> json_valid(#[trigger] docs.deep_view()[t]),
        decreases docs@.len() - q,
    {
        proof {
            assert(docs.deep_view()[q as int] =~= docs@[q as int].deep_view());
            assert(docs@[q as int].deep_view() =~= docs@[q as int]@);
        }
        if !json_document_valid(docs[q].as_slice()) {
            return Err(DocumentFormatError::MalformedPayload);
        }
        q = q + 1;
    }
    let count = docs.len() as u64;
    Ok((count, docs))
}

/// Reads a payload declared as one JSON array of documents: the count is
/// the array's element count and the normalized record is the payload
/// itself. A payload that is not a JSON array aborts the read.
pub fn read_json(payload: &[u8]) -> (r: Result<(u64, Vec<Vec<u8>>), DocumentFormatError>)
    ensures
        r is Ok <==> json_array_count(payload@) is Some,
        r is Ok ==> r.unwrap().0 as int == json_array_count(payload@).unwrap() && r.unwrap(
        ).1.deep_view() == seq![payload@],
        r is Err ==> r == Err::<(u64, Vec<Vec<u8>>), DocumentFormatError>(
            DocumentFormatError::MalformedPayload,
        ),
{
    match json_array_len(payload) {
        Some(n) => {
            let mut docs: Vec<Vec<u8>> = Vec::new();
            docs.push(slice_to_vec(payload));
            proof {
                assert(docs@.len() == 1);
                assert(docs@[0]@ == payload@);
                assert(docs.deep_view() =~~= seq![payload@]);
            }
            Ok((n, docs))
        },
        None => Err(DocumentFormatError::MalformedPayload),
    }
}

/// Reads a payload of comma-separated records, one per line: the first
/// non-empty line is the header, the remaining non-empty lines are the
/// records, and the count is their number. A payload without a header
/// line aborts the read.
pub fn read_csv(payload: &[u8]) -> (r: Result<(u64, Vec<Vec<u8>>), DocumentFormatError>)
    ensures
        r is Ok <==> nonempty_lines(payload@).len() >= 1,
        r is Ok ==> r.unwrap().1.deep_view() == nonempty_lines(payload@).drop_first() && r.unwrap(
        ).0 as int == nonempty_lines(payload@).len() - 1,
        r is Err ==> r == Err::<(u64, Vec<Vec<u8>>), DocumentFormatError>(
            DocumentFormatError::MalformedPayload,
        ),
{
    let mut lines = split_nonempty_lines(payload);
    if lines.len() == 0 {
        proof {
            assert(lines.deep_view().len() == 0);
        }
        return Err(DocumentFormatError::MalformedPayload);
    }
    let ghost all = lines.deep_view();
    proof {
        assert(all.len() == lines@.len());
    }
    lines.remove(0);
    proof {
        assert(lines.deep_view() =~~= all.drop_first());
    }
    let count = lines.len() as u64;
    Ok((count, lines))
}

} // verus!
