//! The on-disk record format: one record per line, the operation name and
//! base64-encoded fields separated by single spaces, so that arbitrary key
//! and value bytes never break the line framing.

use vstd::prelude::*;

verus! {

/// The byte that separates the fields of a record line.
pub const SPACE_BYTE: u8 = 32;

/// The byte that terminates a record line on disk.
pub const NEWLINE_BYTE: u8 = 10;

/// Tells whether a byte can occur in a base64 field: the standard alphabet
/// (letters, digits, '+', '/') or the '=' padding byte.
pub open spec fn is_b64_byte(b: u8) -> bool {
    (65 <= b <= 90) || (97 <= b <= 122) || (48 <= b <= 57) || b == 43 || b == 47 || b == 61
}

/// The standard-alphabet base64 encoding of a byte sequence.
pub uninterp spec fn b64_of(data: Seq<u8>) -> Seq<u8>;

/// The standard-alphabet base64 decoding of a byte sequence: `None` on text
/// that is not valid base64.
pub uninterp spec fn b64_decode_of(text: Seq<u8>) -> Option<Seq<u8>>;

/// Relies on base64's `STANDARD` engine `encode`: the result is a function of
/// the input bytes alone, uses only the standard alphabet with '=' padding,
/// and the same engine's `decode` inverts it.
#[verifier::external_body]
pub(crate) fn b64_encode(data: &Vec<u8>) -> (r: Vec<u8>)
    ensures
        r@ == b64_of(data@),
        b64_decode_of(r@) == Some(data@),
        forall|i: int| 0 <= i < r@.len() ==> is_b64_byte(#[trigger] r@[i]),
{
    base64::Engine::encode(&base64::engine::general_purpose::STANDARD, data).into_bytes()
}

/// Relies on base64's `STANDARD` engine `decode`: the result is a function of
/// the input bytes alone, and decoding fails exactly on text that is not
/// valid standard base64.
#[verifier::external_body]
pub(crate) fn b64_decode(text: &Vec<u8>) -> (r: Option<Vec<u8>>)
    ensures
        (match r {
            Some(v) => b64_decode_of(text@) == Some(v@),
            None => b64_decode_of(text@) is None,
        }),
{
    match base64::Engine::decode(&base64::engine::general_purpose::STANDARD, text) {
        Ok(v) => Some(v),
        Err(_) => None,
    }
}

/// A logical log entry: a key written with a value, or a key deleted.
pub enum Record {
    Put { key: Vec<u8>, value: Vec<u8> },
    Delete { key: Vec<u8> },
}

/// The mathematical form of a `Record`, over byte sequences.
pub enum RecordModel {
    Put { key: Seq<u8>, value: Seq<u8> },
    Delete { key: Seq<u8> },
}

impl View for Record {
    type V = RecordModel;

    open spec fn view(&self) -> RecordModel {
        match self {
            Record::Put { key, value } => RecordModel::Put { key: key@, value: value@ },
            Record::Delete { key } => RecordModel::Delete { key: key@ },
        }
    }
}

/// The bytes of the operation name of a put record.
pub open spec fn spec_put_op() -> Seq<u8> {
    seq![112u8, 117u8, 116u8]
}

/// The bytes of the operation name of a delete record.
pub open spec fn spec_delete_op() -> Seq<u8> {
    seq![100u8, 101u8, 108u8, 101u8, 116u8, 101u8]
}

/// The serialized line of a put record, without its line terminator.
pub open spec fn spec_put_line(key: Seq<u8>, value: Seq<u8>) -> Seq<u8> {
    spec_put_op() + seq![SPACE_BYTE] + b64_of(key) + seq![SPACE_BYTE] + b64_of(value)
}

/// The serialized line of a delete record, without its line terminator.
pub open spec fn spec_delete_line(key: Seq<u8>) -> Seq<u8> {
    spec_delete_op() + seq![SPACE_BYTE] + b64_of(key)
}

/// A serialized record never contains an embedded line terminator.
pub open spec fn line_has_no_newline(line: Seq<u8>) -> bool {
    forall|i: int| 0 <= i < line.len() ==> line[i] != NEWLINE_BYTE
}

/// The index of the first occurrence of `b` in `s`, if any.
pub open spec fn find_byte(s: Seq<u8>, b: u8) -> Option<int>
    decreases s.len(),
{
    if s.len() == 0 {
        None
    } else if s[0] == b {
        Some(0)
    } else {
        match find_byte(s.drop_first(), b) {
            Some(i) => Some(i + 1),
            None => None,
        }
    }
}

proof fn lemma_find_byte_some(s: Seq<u8>, b: u8, i: int)
    requires
        0 <= i < s.len(),
        s[i] == b,
        forall|j: int| 0 <= j < i ==> s[j] != b,
    ensures
        find_byte(s, b) == Some(i),
    decreases i,
{
    if i > 0 {
        lemma_find_byte_some(s.drop_first(), b, i - 1);
    }
}

proof fn lemma_find_byte_none(s: Seq<u8>, b: u8)
    requires
        forall|j: int| 0 <= j < s.len() ==> s[j] != b,
    ensures
        find_byte(s, b) is None,
    decreases s.len(),
{
    if s.len() > 0 {
        lemma_find_byte_none(s.drop_first(), b);
    }
}

proof fn lemma_find_byte_bounds(s: Seq<u8>, b: u8)
    ensures
        (match find_byte(s, b) {
            Some(i) => 0 <= i < s.len() && s[i] == b && (forall|j: int| 0 <= j < i ==> s[j] != b),
            None => forall|j: int| 0 <= j < s.len() ==> s[j] != b,
        }),
    decreases s.len(),
{
    if s.len() > 0 && s[0] != b {
        lemma_find_byte_bounds(s.drop_first(), b);
        let tail = s.drop_first();
        match find_byte(tail, b) {
            Some(i) => {
                assert(s[i + 1] == tail[i]);
                assert(forall|j: int| 0 <= j < i + 1 ==> s[j] != b) by {
                    assert(forall|j: int| 1 <= j < i + 1 ==> s[j] == tail[j - 1]);
                }
            },
            None => {
                assert(forall|j: int| 0 <= j < s.len() ==> s[j] != b) by {
                    assert(forall|j: int| 1 <= j < s.len() ==> s[j] == tail[j - 1]);
                }
            },
        }
    }
}

/// The record that a line holds: `None` for a line of any other shape, which
/// replay skips. A put line is the put operation name and two base64 fields;
/// a delete line is the delete operation name and one base64 field.
pub open spec fn parse_line(line: Seq<u8>) -> Option<RecordModel> {
    match find_byte(line, SPACE_BYTE) {
        None => None,
        Some(i) => {
            let op = line.subrange(0, i);
            let rest = line.subrange(i + 1, line.len() as int);
            if op == spec_put_op() {
                parse_put_fields(rest)
            } else if op == spec_delete_op() {
                parse_delete_field(rest)
            } else {
                None
            }
        },
    }
}

/// Parses the two base64 fields that follow a put operation name.
pub open spec fn parse_put_fields(rest: Seq<u8>) -> Option<RecordModel> {
    match find_byte(rest, SPACE_BYTE) {
        None => None,
        Some(j) => {
            let key_text = rest.subrange(0, j);
            let value_text = rest.subrange(j + 1, rest.len() as int);
            match b64_decode_of(key_text) {
                Some(key) => match b64_decode_of(value_text) {
                    Some(value) => Some(RecordModel::Put { key, value }),
                    None => None,
                },
                None => None,
            }
        },
    }
}

/// Parses the single base64 field that follows a delete operation name.
pub open spec fn parse_delete_field(rest: Seq<u8>) -> Option<RecordModel> {
    match find_byte(rest, SPACE_BYTE) {
        Some(_) => None,
        None => match b64_decode_of(rest) {
            Some(key) => Some(RecordModel::Delete { key }),
            None => None,
        },
    }
}

/// Serializing a put record and parsing the line back yields the record,
/// provided the base64 fields decode to what was encoded and hold only
/// alphabet bytes, which the encoder guarantees of every call.
pub proof fn lemma_parse_put_line(key: Seq<u8>, value: Seq<u8>)
    requires
        forall|i: int| 0 <= i < b64_of(key).len() ==> is_b64_byte(#[trigger] b64_of(key)[i]),
        forall|i: int| 0 <= i < b64_of(value).len() ==> is_b64_byte(#[trigger] b64_of(value)[i]),
        b64_decode_of(b64_of(key)) == Some(key),
        b64_decode_of(b64_of(value)) == Some(value),
    ensures
        parse_line(spec_put_line(key, value)) == Some(RecordModel::Put { key, value }),
{
    let bk = b64_of(key);
    let bv = b64_of(value);
    let line = spec_put_line(key, value);
    assert(line.len() == 4 + bk.len() + 1 + bv.len());
    assert(line[3] == SPACE_BYTE);
    assert(line[0] == 112u8 && line[1] == 117u8 && line[2] == 116u8);
    lemma_find_byte_some(line, SPACE_BYTE, 3);
    assert(line.subrange(0, 3) =~= spec_put_op());
    let rest = line.subrange(4, line.len() as int);
    assert(rest =~= bk + seq![SPACE_BYTE] + bv);
    let klen = bk.len() as int;
    assert(rest[klen] == SPACE_BYTE);
    assert(forall|j: int| 0 <= j < klen ==> rest[j] == bk[j]);
    lemma_find_byte_some(rest, SPACE_BYTE, klen);
    assert(rest.subrange(0, klen) =~= bk);
    assert(rest.subrange(klen + 1, rest.len() as int) =~= bv);
}

/// Serializing a delete record and parsing the line back yields the record,
/// under the same guarantees of the encoder.
pub proof fn lemma_parse_delete_line(key: Seq<u8>)
    requires
        forall|i: int| 0 <= i < b64_of(key).len() ==> is_b64_byte(#[trigger] b64_of(key)[i]),
        b64_decode_of(b64_of(key)) == Some(key),
    ensures
        parse_line(spec_delete_line(key)) == Some(RecordModel::Delete { key }),
{
    let bk = b64_of(key);
    let line = spec_delete_line(key);
    assert(line.len() == 7 + bk.len());
    assert(line[6] == SPACE_BYTE);
    assert(line[0] == 100u8 && line[1] == 101u8 && line[2] == 108u8 && line[3] == 101u8 && line[4]
        == 116u8 && line[5] == 101u8);
    lemma_find_byte_some(line, SPACE_BYTE, 6);
    assert(line.subrange(0, 6) =~= spec_delete_op());
    assert(line.subrange(0, 6) != spec_put_op());
    let rest = line.subrange(7, line.len() as int);
    assert(rest =~= bk);
    assert(forall|j: int| 0 <= j < rest.len() ==> rest[j] != SPACE_BYTE);
    lemma_find_byte_none(rest, SPACE_BYTE);
}

/// Appends every byte of `src` to `dst`.
pub(crate) fn append_bytes(dst: &mut Vec<u8>, src: &Vec<u8>)
    ensures
        final(dst)@ == old(dst)@ + src@,
{
    let mut i: usize = 0;
    while i < src.len()
        invariant
            i <= src.len(),
            dst@ == old(dst)@ + src@.subrange(0, i as int),
        decreases src.len() - i,
    {
        dst.push(src[i]);
        proof {
            assert(old(dst)@ + src@.subrange(0, i + 1) =~= (old(dst)@ + src@.subrange(
                0,
                i as int,
            )).push(src@[i as int]));
        }
        i = i + 1;
    }
    proof {
        assert(src@.subrange(0, src@.len() as int) =~= src@);
    }
}

/// Copies the bytes of `v` from `start` (inclusive) to `end` (exclusive).
pub(crate) fn vec_subrange(v: &Vec<u8>, start: usize, end: usize) -> (r: Vec<u8>)
    requires
        start <= end <= v@.len(),
    ensures
        r@ == v@.subrange(start as int, end as int),
{
    let mut r: Vec<u8> = Vec::new();
    let mut i: usize = start;
    while i < end
        invariant
            start <= i <= end <= v@.len(),
            r@ == v@.subrange(start as int, i as int),
        decreases end - i,
    {
        r.push(v[i]);
        proof {
            assert(v@.subrange(start as int, i + 1) =~= v@.subrange(start as int, i as int).push(
                v@[i as int],
            ));
        }
        i = i + 1;
    }
    r
}

/// Finds the first occurrence of `b` in `v`.
pub(crate) fn find_byte_exec(v: &Vec<u8>, b: u8) -> (r: Option<usize>)
    ensures
        (match r {
            Some(i) => find_byte(v@, b) == Some(i as int),
            None => find_byte(v@, b) is None,
        }),
{
    let mut i: usize = 0;
    while i < v.len()
        invariant
            i <= v@.len(),
            forall|j: int| 0 <= j < i ==> v@[j] != b,
        decreases v@.len() - i,
    {
        if v[i] == b {
            proof {
                lemma_find_byte_some(v@, b, i as int);
            }
            return Some(i);
        }
        i = i + 1;
    }
    proof {
        lemma_find_byte_none(v@, b);
    }
    None
}

/// Serializes a put record as one line, without its line terminator.
pub(crate) fn encode_put_line(key: &Vec<u8>, value: &Vec<u8>) -> (line: Vec<u8>)
    ensures
        line@ == spec_put_line(key@, value@),
        parse_line(line@) == Some(RecordModel::Put { key: key@, value: value@ }),
        line_has_no_newline(line@),
{
    let mut line: Vec<u8> = Vec::new();
    line.push(112);
    line.push(117);
    line.push(116);
    line.push(SPACE_BYTE);
    let key_text = b64_encode(key);
    append_bytes(&mut line, &key_text);
    line.push(SPACE_BYTE);
    let value_text = b64_encode(value);
    append_bytes(&mut line, &value_text);
    proof {
        assert(line@ =~= spec_put_line(key@, value@));
        lemma_parse_put_line(key@, value@);
    }
    line
}

/// Serializes a delete record as one line, without its line terminator.
pub(crate) fn encode_delete_line(key: &Vec<u8>) -> (line: Vec<u8>)
    ensures
        line@ == spec_delete_line(key@),
        parse_line(line@) == Some(RecordModel::Delete { key: key@ }),
        line_has_no_newline(line@),
{
    let mut line: Vec<u8> = Vec::new();
    line.push(100);
    line.push(101);
    line.push(108);
    line.push(101);
    line.push(116);
    line.push(101);
    line.push(SPACE_BYTE);
    let key_text = b64_encode(key);
    append_bytes(&mut line, &key_text);
    proof {
        assert(line@ =~= spec_delete_line(key@));
        lemma_parse_delete_line(key@);
    }
    line
}

/// Deserializes one line: the record it holds, or `None` for a line of any
/// other shape, which replay skips.
pub fn decode_line(line: &Vec<u8>) -> (r: Option<Record>)
    ensures
        (match r {
            Some(rec) => parse_line(line@) == Some(rec@),
            None => parse_line(line@) is None,
        }),
{
    let n = line.len();
    let first_space = match find_byte_exec(line, SPACE_BYTE) {
        None => {
            return None;
        },
        Some(i) => i,
    };
    proof {
        lemma_find_byte_bounds(line@, SPACE_BYTE);
        assert(0 <= first_space < line@.len());
    }
    let op = vec_subrange(line, 0, first_space);
    let rest = vec_subrange(line, first_space + 1, n);
    let is_put = op.len() == 3 && op[0] == 112 && op[1] == 117 && op[2] == 116;
    let is_delete = op.len() == 6 && op[0] == 100 && op[1] == 101 && op[2] == 108 && op[3] == 101
        && op[4] == 116 && op[5] == 101;
    proof {
        if is_put {
            assert(op@ =~= spec_put_op());
        } else {
            assert(op@ != spec_put_op());
        }
        if is_delete {
            assert(op@ =~= spec_delete_op());
        } else {
            assert(op@ != spec_delete_op());
        }
    }
    if is_put {
        let m = rest.len();
        let second_space = match find_byte_exec(&rest, SPACE_BYTE) {
            None => {
                return None;
            },
            Some(j) => j,
        };
        proof {
            lemma_find_byte_bounds(rest@, SPACE_BYTE);
            assert(0 <= second_space < rest@.len());
        }
        let key_text = vec_subrange(&rest, 0, second_space);
        let value_text = vec_subrange(&rest, second_space + 1, m);
        match b64_decode(&key_text) {
            None => None,
            Some(key) => match b64_decode(&value_text) {
                None => None,
                Some(value) => Some(Record::Put { key, value }),
            },
        }
    } else if is_delete {
        match find_byte_exec(&rest, SPACE_BYTE) {
            Some(_) => None,
            None => match b64_decode(&rest) {
                None => None,
                Some(key) => Some(Record::Delete { key }),
            },
        }
    } else {
        None
    }
}

/// The views of a sequence of byte vectors.
pub open spec fn lines_view(lines: Seq<Vec<u8>>) -> Seq<Seq<u8>> {
    lines.map_values(|l: Vec<u8>| l@)
}

/// Splits `data` at every line terminator, the terminators dropped and a
/// final unterminated segment kept: `cur` is the part of the current line
/// already consumed.
pub open spec fn spec_split_from(data: Seq<u8>, cur: Seq<u8>) -> Seq<Seq<u8>>
    decreases data.len(),
{
    if data.len() == 0 {
        if cur.len() == 0 {
            Seq::empty()
        } else {
            seq![cur]
        }
    } else if data[0] == NEWLINE_BYTE {
        seq![cur] + spec_split_from(data.drop_first(), Seq::empty())
    } else {
        spec_split_from(data.drop_first(), cur.push(data[0]))
    }
}

/// The lines of a log file's bytes.
pub open spec fn spec_split_lines(data: Seq<u8>) -> Seq<Seq<u8>> {
    spec_split_from(data, Seq::empty())
}

/// The bytes of a log file holding the given lines, each terminated.
pub open spec fn spec_join_lines(lines: Seq<Seq<u8>>) -> Seq<u8>
    decreases lines.len(),
{
    if lines.len() == 0 {
        Seq::empty()
    } else {
        lines[0] + seq![NEWLINE_BYTE] + spec_join_lines(lines.drop_first())
    }
}

proof fn lemma_split_from_line(l: Seq<u8>, rest: Seq<u8>, cur: Seq<u8>)
    requires
        line_has_no_newline(l),
    ensures
        spec_split_from(l + seq![NEWLINE_BYTE] + rest, cur) == seq![cur + l] + spec_split_from(
            rest,
            Seq::empty(),
        ),
    decreases l.len(),
{
    if l.len() == 0 {
        assert(l + seq![NEWLINE_BYTE] + rest =~= seq![NEWLINE_BYTE] + rest);
        assert((seq![NEWLINE_BYTE] + rest)[0] == NEWLINE_BYTE);
        assert((seq![NEWLINE_BYTE] + rest).drop_first() =~= rest);
        assert(cur + l =~= cur);
    } else {
        let data = l + seq![NEWLINE_BYTE] + rest;
        assert(data[0] == l[0]);
        assert(data[0] != NEWLINE_BYTE);
        assert(data.drop_first() =~= l.drop_first() + seq![NEWLINE_BYTE] + rest);
        lemma_split_from_line(l.drop_first(), rest, cur.push(l[0]));
        assert(cur.push(l[0]) + l.drop_first() =~= cur + l);
    }
}

/// Splitting the bytes of a file written as terminated lines yields those
/// lines again, as long as no line holds an embedded terminator.
pub proof fn lemma_split_join(lines: Seq<Seq<u8>>)
    requires
        forall|i: int| 0 <= i < lines.len() ==> line_has_no_newline(#[trigger] lines[i]),
    ensures
        spec_split_lines(spec_join_lines(lines)) == lines,
    decreases lines.len(),
{
    if lines.len() > 0 {
        lemma_split_from_line(lines[0], spec_join_lines(lines.drop_first()), Seq::empty());
        lemma_split_join(lines.drop_first());
        assert(Seq::<u8>::empty() + lines[0] =~= lines[0]);
        assert(seq![lines[0]] + lines.drop_first() =~= lines);
    }
}

proof fn lemma_join_snoc(lines: Seq<Seq<u8>>, l: Seq<u8>)
    ensures
        spec_join_lines(lines.push(l)) == spec_join_lines(lines) + l + seq![NEWLINE_BYTE],
    decreases lines.len(),
{
    if lines.len() == 0 {
        assert(lines.push(l)[0] == l);
        assert(lines.push(l).drop_first() =~= Seq::<Seq<u8>>::empty());
        assert(spec_join_lines(Seq::<Seq<u8>>::empty()) =~= Seq::<u8>::empty());
        assert(spec_join_lines(lines.push(l)) =~= l + seq![NEWLINE_BYTE] + Seq::<u8>::empty());
        assert(l + seq![NEWLINE_BYTE] + Seq::<u8>::empty() =~= l + seq![NEWLINE_BYTE]);
        assert(spec_join_lines(lines) + l + seq![NEWLINE_BYTE] =~= l + seq![NEWLINE_BYTE]);
    } else {
        assert(lines.push(l).drop_first() =~= lines.drop_first().push(l));
        assert(lines.push(l)[0] == lines[0]);
        lemma_join_snoc(lines.drop_first(), l);
        assert(lines[0] + seq![NEWLINE_BYTE] + (spec_join_lines(lines.drop_first()) + l
            + seq![NEWLINE_BYTE]) =~= (lines[0] + seq![NEWLINE_BYTE] + spec_join_lines(
            lines.drop_first(),
        )) + l + seq![NEWLINE_BYTE]);
    }
}

/// Splits a log file's bytes into its lines.
pub fn split_lines(data: &Vec<u8>) -> (r: Vec<Vec<u8>>)
    ensures
        lines_view(r@) == spec_split_lines(data@),
        forall|i: int| 0 <= i < r@.len() ==> line_has_no_newline(#[trigger] r@[i]@),
{
    let mut r: Vec<Vec<u8>> = Vec::new();
    let mut cur: Vec<u8> = Vec::new();
    let mut i: usize = 0;
    proof {
        assert(data@.skip(0) =~= data@);
        assert(lines_view(r@) =~= Seq::<Seq<u8>>::empty());
        assert(lines_view(r@) + spec_split_from(data@, cur@) =~= spec_split_from(data@, cur@));
    }
    while i < data.len()
        invariant
            i <= data@.len(),
            spec_split_lines(data@) == lines_view(r@) + spec_split_from(
                data@.skip(i as int),
                cur@,
            ),
            line_has_no_newline(cur@),
            forall|j: int| 0 <= j < r@.len() ==> line_has_no_newline(#[trigger] r@[j]@),
        decreases data@.len() - i,
    {
        let b = data[i];
        proof {
            assert(data@.skip(i as int)[0] == data@[i as int]);
            assert(data@.skip(i as int).drop_first() =~= data@.skip(i + 1));
        }
        if b == NEWLINE_BYTE {
            let ghost old_r = r@;
            let ghost old_cur = cur@;
            let finished = cur;
            cur = Vec::new();
            r.push(finished);
            proof {
                assert(lines_view(r@) =~= lines_view(old_r) + seq![old_cur]);
                assert(lines_view(old_r) + (seq![old_cur] + spec_split_from(
                    data@.skip(i + 1),
                    Seq::empty(),
                )) =~= (lines_view(old_r) + seq![old_cur]) + spec_split_from(
                    data@.skip(i + 1),
                    Seq::empty(),
                ));
            }
        } else {
            cur.push(b);
        }
        i = i + 1;
    }
    proof {
        assert(data@.skip(data@.len() as int) =~= Seq::<u8>::empty());
    }
    if cur.len() > 0 {
        let ghost old_r = r@;
        let ghost old_cur = cur@;
        r.push(cur);
        proof {
            assert(lines_view(r@) =~= lines_view(old_r) + seq![old_cur]);
        }
    } else {
        proof {
            assert(lines_view(r@) + Seq::<Seq<u8>>::empty() =~= lines_view(r@));
        }
    }
    r
}

/// Joins record lines into the bytes of a log file, each line terminated.
pub fn join_lines(lines: &Vec<Vec<u8>>) -> (r: Vec<u8>)
    ensures
        r@ == spec_join_lines(lines_view(lines@)),
{
    let mut r: Vec<u8> = Vec::new();
    let mut i: usize = 0;
    while i < lines.len()
        invariant
            i <= lines@.len(),
            r@ == spec_join_lines(lines_view(lines@).subrange(0, i as int)),
        decreases lines@.len() - i,
    {
        let line = &lines[i];
        append_bytes(&mut r, line);
        r.push(NEWLINE_BYTE);
        proof {
            let lv = lines_view(lines@);
            assert(lv.subrange(0, i + 1) =~= lv.subrange(0, i as int).push(lv[i as int]));
            lemma_join_snoc(lv.subrange(0, i as int), lv[i as int]);
        }
        i = i + 1;
    }
    proof {
        assert(lines_view(lines@).subrange(0, lines@.len() as int) =~= lines_view(lines@));
    }
    r
}

} // verus!
