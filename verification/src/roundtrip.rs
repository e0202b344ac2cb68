use crate::cmd::{
    apply_line, cmd_pieces, count_pieces, delete_text, empty_view, expression_pieces, insert_text,
    method_tag, parse_from, query_text, spec_from_vec, CmdView, Method,
};
use crate::frame::{
    crlf, has_nested, piece_bytes, pieces_bytes, tagged_pieces, Piece, TAG_COLUMN, TAG_COLUMNS,
    TAG_EXPRESSION, TAG_TABLE, TAG_VALUE, TAG_VALUES,
};
use crate::line::{crlf_at, first_crlf, lemma_first_crlf_at, next_line};
use vstd::prelude::*;
use vstd::utf8::{
    char_is_scalar, char_u32_cast, encode_scalar, encode_utf8, encode_utf8_decode_utf8, encode_utf8_valid_utf8,
    has_width_1_encoding, has_width_2_encoding, has_width_3_encoding, is_scalar,
    last_continuation_byte, leading_byte_width_1, leading_byte_width_2, leading_byte_width_3,
    leading_byte_width_4, second_last_continuation_byte, third_last_continuation_byte,
};

verus! {

/// A line of a frame: its tag and the bytes after the tag.
pub type Line = (u8, Seq<u8>);

/// The bytes of one line: the tag, the data and the separator.
pub open spec fn line_bytes(l: Line) -> Seq<u8> {
    seq![l.0] + l.1 + crlf()
}

pub open spec fn lines_bytes(ls: Seq<Line>) -> Seq<u8>
    decreases ls.len(),
{
    if ls.len() == 0 {
        Seq::empty()
    } else {
        lines_bytes(ls.drop_last()) + line_bytes(ls.last())
    }
}

/// The command after each line has been applied in order.
pub open spec fn fold_lines(ls: Seq<Line>, c: CmdView) -> Option<CmdView>
    decreases ls.len(),
{
    if ls.len() == 0 {
        Some(c)
    } else {
        match fold_lines(ls.drop_last(), c) {
            Some(c1) => apply_line(c1, ls.last().0, ls.last().1),
            None => None,
        }
    }
}

pub open spec fn crlf_free(d: Seq<u8>) -> bool {
    forall|j: int| !crlf_at(d, j)
}

pub open spec fn tagged_lines(tag: u8, items: Seq<Seq<char>>) -> Seq<Line>
    decreases items.len(),
{
    if items.len() == 0 {
        Seq::empty()
    } else {
        tagged_lines(tag, items.drop_last()).push((tag, encode_utf8(items.last())))
    }
}

pub open spec fn expression_lines(e: Option<Seq<char>>) -> Seq<Line> {
    match e {
        Some(e) => tagged_lines(TAG_EXPRESSION, seq![e]),
        None => Seq::empty(),
    }
}

pub open spec fn count_line(tag: u8, n: nat) -> Seq<Line> {
    seq![(tag, seq![n as u8])]
}

/// The lines of the frame of a command.
pub open spec fn cmd_lines(c: CmdView) -> Seq<Line> {
    seq![(method_tag(c.method), Seq::<u8>::empty())]
        + tagged_lines(TAG_TABLE, seq![c.table])
        + count_line(TAG_COLUMNS, c.columns.len())
        + tagged_lines(TAG_COLUMN, c.columns)
        + count_line(TAG_VALUES, c.values.len())
        + tagged_lines(TAG_VALUE, c.values)
        + expression_lines(c.expression)
}

proof fn lemma_next_line_of_line(l: Line, rest: Seq<u8>)
    requires
        crlf_free(l.1),
    ensures
        next_line(line_bytes(l) + rest) == Some((l.0, l.1, rest)),
{
    let d = l.1;
    let x = line_bytes(l) + rest;
    let k = (d.len() + 1) as nat;
    assert(x[k as int] == 13u8 && x[k + 1int] == 10u8);
    assert forall|j: int| 1 <= j < k implies !crlf_at(x, j) by {
        assert(x[j] == d[j - 1]);
        if j < d.len() {
            assert(x[j + 1] == d[j]);
            assert(!crlf_at(d, j - 1));
        }
    }
    lemma_first_crlf_at(x, 1, k);
    assert(x.subrange(1, k as int) =~= d);
    assert(x.skip(k + 2int) =~= rest);
}

proof fn lemma_parse_lines(ls: Seq<Line>, rest: Seq<u8>, c: CmdView)
    requires
        forall|i: int| 0 <= i < ls.len() ==> crlf_free(#[trigger] ls[i].1),
    ensures
        parse_from(lines_bytes(ls) + rest, c) == match fold_lines(ls, c) {
            Some(c2) => parse_from(rest, c2),
            None => None,
        },
    decreases ls.len(),
{
    if ls.len() == 0 {
        assert(lines_bytes(ls) + rest =~= rest);
    } else {
        let init = ls.drop_last();
        let last = ls.last();
        assert(crlf_free(ls[ls.len() - 1].1));
        let rest2 = line_bytes(last) + rest;
        assert(lines_bytes(ls) + rest =~= lines_bytes(init) + rest2);
        lemma_parse_lines(init, rest2, c);
        lemma_next_line_of_line(last, rest);
    }
}

proof fn lemma_fold_concat(a: Seq<Line>, b: Seq<Line>, c: CmdView)
    ensures
        fold_lines(a + b, c) == match fold_lines(a, c) {
            Some(c1) => fold_lines(b, c1),
            None => None,
        },
    decreases b.len(),
{
    if b.len() == 0 {
        assert(a + b =~= a);
    } else {
        assert((a + b).drop_last() =~= a + b.drop_last());
        lemma_fold_concat(a, b.drop_last(), c);
    }
}

proof fn lemma_lines_bytes_concat(a: Seq<Line>, b: Seq<Line>)
    ensures
        lines_bytes(a + b) == lines_bytes(a) + lines_bytes(b),
    decreases b.len(),
{
    if b.len() == 0 {
        assert(a + b =~= a);
        assert(lines_bytes(a) + lines_bytes(b) =~= lines_bytes(a));
    } else {
        assert((a + b).drop_last() =~= a + b.drop_last());
        lemma_lines_bytes_concat(a, b.drop_last());
        assert(lines_bytes(a + b) =~= lines_bytes(a) + lines_bytes(b));
    }
}

proof fn lemma_pieces_bytes_concat(a: Seq<Piece>, b: Seq<Piece>)
    ensures
        pieces_bytes(a + b) == pieces_bytes(a) + pieces_bytes(b),
    decreases b.len(),
{
    if b.len() == 0 {
        assert(a + b =~= a);
        assert(pieces_bytes(a) + pieces_bytes(b) =~= pieces_bytes(a));
    } else {
        assert((a + b).drop_last() =~= a + b.drop_last());
        lemma_pieces_bytes_concat(a, b.drop_last());
        assert(pieces_bytes(a + b) =~= pieces_bytes(a) + pieces_bytes(b));
    }
}

proof fn lemma_three_pieces(p0: Piece, p1: Piece, p2: Piece)
    ensures
        pieces_bytes(seq![p0, p1, p2]) == piece_bytes(p0) + piece_bytes(p1) + piece_bytes(p2),
{
    let s = seq![p0, p1, p2];
    let e = Seq::<Piece>::empty();
    assert(pieces_bytes(e) == Seq::<u8>::empty());
    assert(seq![p0].drop_last() =~= e);
    assert(pieces_bytes(seq![p0]) =~= piece_bytes(p0));
    assert(seq![p0, p1].drop_last() =~= seq![p0]);
    assert(pieces_bytes(seq![p0, p1]) =~= piece_bytes(p0) + piece_bytes(p1));
    assert(s.drop_last() =~= seq![p0, p1]);
    assert(pieces_bytes(s) =~= piece_bytes(p0) + piece_bytes(p1) + piece_bytes(p2));
}

proof fn lemma_one_line(l: Line)
    ensures
        lines_bytes(seq![l]) == line_bytes(l),
{
    assert(seq![l].drop_last() =~= Seq::<Line>::empty());
    assert(lines_bytes(Seq::<Line>::empty()) == Seq::<u8>::empty());
    assert(lines_bytes(seq![l]) =~= line_bytes(l));
}

proof fn lemma_tagged_bytes(tag: u8, items: Seq<Seq<char>>)
    ensures
        pieces_bytes(tagged_pieces(tag, items)) == lines_bytes(tagged_lines(tag, items)),
    decreases items.len(),
{
    if items.len() > 0 {
        let x = items.last();
        let three = seq![Piece::Sign(tag), Piece::Bulk(encode_utf8(x)), Piece::Bulk(crlf())];
        lemma_tagged_bytes(tag, items.drop_last());
        lemma_pieces_bytes_concat(tagged_pieces(tag, items.drop_last()), three);
        lemma_three_pieces(three[0], three[1], three[2]);
        let ls = tagged_lines(tag, items);
        assert(ls.drop_last() =~= tagged_lines(tag, items.drop_last()));
        assert(pieces_bytes(three) =~= line_bytes((tag, encode_utf8(x))));
    }
}

proof fn lemma_tagged_crlf_free(tag: u8, items: Seq<Seq<char>>)
    requires
        forall|i: int| 0 <= i < items.len() ==> text_crlf_free(#[trigger] items[i]),
    ensures
        forall|i: int|
            0 <= i < tagged_lines(tag, items).len() ==> crlf_free(
                #[trigger] tagged_lines(tag, items)[i].1,
            ),
        tagged_lines(tag, items).len() == items.len(),
    decreases items.len(),
{
    if items.len() > 0 {
        let init = items.drop_last();
        assert forall|i: int| 0 <= i < init.len() implies text_crlf_free(#[trigger] init[i]) by {
            assert(init[i] == items[i]);
        }
        lemma_tagged_crlf_free(tag, init);
        let ls = tagged_lines(tag, items);
        assert forall|i: int| 0 <= i < ls.len() implies crlf_free(#[trigger] ls[i].1) by {
            if i < ls.len() - 1 {
                assert(ls[i] == tagged_lines(tag, init)[i]);
            } else {
                lemma_encode_crlf_free(items[items.len() - 1]);
            }
        }
    }
}

/// Folding the lines of a sequence of columns (or values) appends them.
proof fn lemma_fold_tagged(tag: u8, items: Seq<Seq<char>>, c: CmdView)
    requires
        tag == TAG_COLUMN || tag == TAG_VALUE,
    ensures
        fold_lines(tagged_lines(tag, items), c) == Some(
            if tag == TAG_COLUMN {
                CmdView { columns: c.columns + items, ..c }
            } else {
                CmdView { values: c.values + items, ..c }
            },
        ),
    decreases items.len(),
{
    if items.len() == 0 {
        assert(c.columns + items =~= c.columns);
        assert(c.values + items =~= c.values);
    } else {
        let init = items.drop_last();
        let x = items.last();
        lemma_fold_tagged(tag, init, c);
        let ls = tagged_lines(tag, items);
        assert(ls.drop_last() =~= tagged_lines(tag, init));
        encode_utf8_valid_utf8(x);
        encode_utf8_decode_utf8(x);
        assert((c.columns + init).push(x) =~= c.columns + items);
        assert((c.values + init).push(x) =~= c.values + items);
    }
}

/// Text in which no carriage return is followed by a line feed.
pub open spec fn text_crlf_free(s: Seq<char>) -> bool {
    forall|j: int| 0 <= j && j + 1 < s.len() ==> !(#[trigger] s[j] == '\r' && s[j + 1] == '\n')
}

/// A command whose text fields (table, columns, values, expression) hold no
/// carriage return followed by a line feed.
pub open spec fn text_fields_crlf_free(c: CmdView) -> bool {
    &&& text_crlf_free(c.table)
    &&& forall|i: int| 0 <= i < c.columns.len() ==> text_crlf_free(#[trigger] c.columns[i])
    &&& forall|i: int| 0 <= i < c.values.len() ==> text_crlf_free(#[trigger] c.values[i])
    &&& c.expression matches Some(e) ==> text_crlf_free(e)
}

/// A character is written as its own byte when it is below 0x80, and as
/// bytes that are all at least 0x80 otherwise.
proof fn lemma_scalar_bytes(c: char)
    ensures
        encode_scalar(c as u32).len() >= 1,
        encode_scalar(c as u32).len() == 1 ==> encode_scalar(c as u32)[0] as u32 == c as u32,
        encode_scalar(c as u32).len() > 1 ==> forall|i: int|
            0 <= i < encode_scalar(c as u32).len() ==> #[trigger] encode_scalar(c as u32)[i]
                >= 0x80,
{
    char_is_scalar(c);
    let v = c as u32;
    if has_width_1_encoding(v) {
        assert(leading_byte_width_1(v) as u32 == v) by (bit_vector)
            requires
                v <= 0x7f,
        ;
    } else {
        assert(last_continuation_byte(v) >= 0x80) by (bit_vector);
        assert(second_last_continuation_byte(v) >= 0x80) by (bit_vector);
        assert(third_last_continuation_byte(v) >= 0x80) by (bit_vector);
        assert(leading_byte_width_2(v) >= 0x80) by (bit_vector);
        assert(leading_byte_width_3(v) >= 0x80) by (bit_vector);
        assert(leading_byte_width_4(v) >= 0x80) by (bit_vector);
    }
}

/// The UTF-8 bytes of text with no carriage return followed by a line feed
/// hold no such pair either.
proof fn lemma_encode_crlf_free(s: Seq<char>)
    requires
        text_crlf_free(s),
    ensures
        crlf_free(encode_utf8(s)),
    decreases s.len(),
{
    if s.len() > 0 {
        let rest = s.drop_first();
        assert forall|j: int| 0 <= j && j + 1 < rest.len() implies !(#[trigger] rest[j] == '\r'
            && rest[j + 1] == '\n') by {
            assert(rest[j] == s[j + 1] && rest[j + 1] == s[j + 2]);
        }
        lemma_encode_crlf_free(rest);
        let e0 = encode_scalar(s[0] as u32);
        let r = encode_utf8(rest);
        let x = encode_utf8(s);
        assert(x == e0 + r);
        lemma_scalar_bytes(s[0]);
        assert forall|j: int| !crlf_at(x, j) by {
            if crlf_at(x, j) {
                if j + 1 < e0.len() {
                    assert(x[j] == e0[j]);
                } else if j + 1 == e0.len() {
                    assert(x[j] == e0[j]);
                    assert(e0.len() == 1);
                    assert(s[0] as u32 == 13);
                    assert(x[j + 1] == r[0]);
                    assert(rest.len() > 0);
                    let e1 = encode_scalar(rest[0] as u32);
                    lemma_scalar_bytes(rest[0]);
                    assert(r == e1 + encode_utf8(rest.drop_first()));
                    assert(r[0] == e1[0]);
                    assert(e1.len() == 1);
                    assert(rest[0] as u32 == 10);
                    assert(s[1] == rest[0]);
                    char_u32_cast(s[0], 13);
                    char_u32_cast('\r', 13);
                    char_u32_cast(s[1], 10);
                    char_u32_cast('\n', 10);
                    assert(s[0] == '\r' && s[1] == '\n');
                } else {
                    assert(x[j] == r[j - e0.len()]);
                    assert(x[j + 1] == r[j + 1 - e0.len()]);
                    assert(crlf_at(r, j - e0.len()));
                }
            }
        }
    }
}

/// The command that reading back a command's frame gives: the same method,
/// table, columns, values and expression, with the counts that the frame
/// records (the number of columns and of values, each as one byte).
pub open spec fn read_back(c: CmdView) -> CmdView {
    CmdView {
        columns_len: (c.columns.len() as u8) as nat,
        values_len: (c.values.len() as u8) as nat,
        ..c
    }
}

/// Reading a command back from the bytes of its frame gives the command
/// again (its method, table, columns, values and expression, with the counts
/// that the frame records), for every command that has a method and whose
/// text fields hold no carriage return followed by a line feed; and such a
/// frame holds no nested array, so its bytes can be written.
pub proof fn lemma_frame_roundtrip(c: CmdView)
    requires
        c.method != Method::Null,
        text_fields_crlf_free(c),
    ensures
        !has_nested(cmd_pieces(c)),
        spec_from_vec(pieces_bytes(cmd_pieces(c))) == Some(read_back(c)),
{
    let v0 = empty_view(Method::Null);
    let ls = cmd_lines(c);
    lemma_cmd_bytes(c);
    lemma_cmd_lines_crlf_free(c);
    lemma_cmd_no_nested(c);
    lemma_cmd_fold(c);
    lemma_parse_lines(ls, Seq::empty(), v0);
    assert(lines_bytes(ls) + Seq::<u8>::empty() =~= lines_bytes(ls));
    assert(next_line(Seq::<u8>::empty()) is None);
}

/// The command read back from a frame gives the same query, insert and delete
/// statements as the command that the frame was made from.
pub proof fn lemma_read_back_statements(c: CmdView)
    ensures
        query_text(read_back(c)) == query_text(c),
        insert_text(read_back(c)) == insert_text(c),
        delete_text(read_back(c)) == delete_text(c),
{
}

pub open spec fn all_crlf_free(ls: Seq<Line>) -> bool {
    forall|i: int| 0 <= i < ls.len() ==> crlf_free(#[trigger] ls[i].1)
}

proof fn lemma_all_crlf_free_concat(a: Seq<Line>, b: Seq<Line>)
    requires
        all_crlf_free(a),
        all_crlf_free(b),
    ensures
        all_crlf_free(a + b),
{
    assert forall|i: int| 0 <= i < (a + b).len() implies crlf_free(#[trigger] (a + b)[i].1) by {
        if i < a.len() {
            assert((a + b)[i] == a[i]);
        } else {
            assert((a + b)[i] == b[i - a.len()]);
        }
    }
}

proof fn lemma_no_nested_concat(a: Seq<Piece>, b: Seq<Piece>)
    requires
        !has_nested(a),
        !has_nested(b),
    ensures
        !has_nested(a + b),
{
    assert forall|i: int| 0 <= i < (a + b).len() implies !(#[trigger] (a + b)[i] is Nested) by {
        if i < a.len() {
            assert((a + b)[i] == a[i]);
            assert(!(a[i] is Nested));
        } else {
            assert((a + b)[i] == b[i - a.len()]);
            assert(!(b[i - a.len()] is Nested));
        }
    }
}

proof fn lemma_tagged_no_nested(tag: u8, items: Seq<Seq<char>>)
    ensures
        !has_nested(tagged_pieces(tag, items)),
    decreases items.len(),
{
    if items.len() > 0 {
        lemma_tagged_no_nested(tag, items.drop_last());
        let three = seq![
            Piece::Sign(tag),
            Piece::Bulk(encode_utf8(items.last())),
            Piece::Bulk(crlf()),
        ];
        assert(!(three[0] is Nested) && !(three[1] is Nested) && !(three[2] is Nested));
        lemma_no_nested_concat(tagged_pieces(tag, items.drop_last()), three);
    }
}

proof fn lemma_cmd_no_nested(c: CmdView)
    ensures
        !has_nested(cmd_pieces(c)),
{
    let q1 = seq![Piece::Sign(method_tag(c.method)), Piece::Bulk(crlf())];
    let q2 = tagged_pieces(TAG_TABLE, seq![c.table]);
    let q3 = count_pieces(TAG_COLUMNS, c.columns.len());
    let q4 = tagged_pieces(TAG_COLUMN, c.columns);
    let q5 = count_pieces(TAG_VALUES, c.values.len());
    let q6 = tagged_pieces(TAG_VALUE, c.values);
    let q7 = expression_pieces(c.expression);
    assert(!(q1[0] is Nested) && !(q1[1] is Nested));
    assert(!(q3[0] is Nested) && !(q3[1] is Nested) && !(q3[2] is Nested));
    assert(!(q5[0] is Nested) && !(q5[1] is Nested) && !(q5[2] is Nested));
    lemma_tagged_no_nested(TAG_TABLE, seq![c.table]);
    lemma_tagged_no_nested(TAG_COLUMN, c.columns);
    lemma_tagged_no_nested(TAG_VALUE, c.values);
    match c.expression {
        Some(e) => lemma_tagged_no_nested(TAG_EXPRESSION, seq![e]),
        None => {},
    }
    lemma_no_nested_concat(q1, q2);
    lemma_no_nested_concat(q1 + q2, q3);
    lemma_no_nested_concat(q1 + q2 + q3, q4);
    lemma_no_nested_concat(q1 + q2 + q3 + q4, q5);
    lemma_no_nested_concat(q1 + q2 + q3 + q4 + q5, q6);
    lemma_no_nested_concat(q1 + q2 + q3 + q4 + q5 + q6, q7);
}

proof fn lemma_concat_both(qa: Seq<Piece>, qb: Seq<Piece>, la: Seq<Line>, lb: Seq<Line>)
    requires
        pieces_bytes(qa) == lines_bytes(la),
        pieces_bytes(qb) == lines_bytes(lb),
    ensures
        pieces_bytes(qa + qb) == lines_bytes(la + lb),
{
    lemma_pieces_bytes_concat(qa, qb);
    lemma_lines_bytes_concat(la, lb);
}

proof fn lemma_count_bytes(tag: u8, n: nat)
    ensures
        pieces_bytes(count_pieces(tag, n)) == lines_bytes(count_line(tag, n)),
{
    let q = count_pieces(tag, n);
    lemma_three_pieces(q[0], q[1], q[2]);
    lemma_one_line((tag, seq![n as u8]));
    assert(pieces_bytes(q) =~= line_bytes((tag, seq![n as u8])));
}

proof fn lemma_cmd_bytes(c: CmdView)
    ensures
        pieces_bytes(cmd_pieces(c)) == lines_bytes(cmd_lines(c)),
{
    let q1 = seq![Piece::Sign(method_tag(c.method)), Piece::Bulk(crlf())];
    let q2 = tagged_pieces(TAG_TABLE, seq![c.table]);
    let q3 = count_pieces(TAG_COLUMNS, c.columns.len());
    let q4 = tagged_pieces(TAG_COLUMN, c.columns);
    let q5 = count_pieces(TAG_VALUES, c.values.len());
    let q6 = tagged_pieces(TAG_VALUE, c.values);
    let q7 = expression_pieces(c.expression);
    let l1 = seq![(method_tag(c.method), Seq::<u8>::empty())];
    let l2 = tagged_lines(TAG_TABLE, seq![c.table]);
    let l3 = count_line(TAG_COLUMNS, c.columns.len());
    let l4 = tagged_lines(TAG_COLUMN, c.columns);
    let l5 = count_line(TAG_VALUES, c.values.len());
    let l6 = tagged_lines(TAG_VALUE, c.values);
    let l7 = expression_lines(c.expression);
    assert(pieces_bytes(q1) == lines_bytes(l1)) by {
        assert(q1.drop_last() =~= seq![q1[0]]);
        assert(seq![q1[0]].drop_last() =~= Seq::<Piece>::empty());
        assert(pieces_bytes(Seq::<Piece>::empty()) == Seq::<u8>::empty());
        assert(pieces_bytes(seq![q1[0]]) =~= piece_bytes(q1[0]));
        lemma_one_line(l1[0]);
        assert(pieces_bytes(q1) =~= line_bytes(l1[0]));
    }
    lemma_tagged_bytes(TAG_TABLE, seq![c.table]);
    lemma_count_bytes(TAG_COLUMNS, c.columns.len());
    lemma_tagged_bytes(TAG_COLUMN, c.columns);
    lemma_count_bytes(TAG_VALUES, c.values.len());
    lemma_tagged_bytes(TAG_VALUE, c.values);
    match c.expression {
        Some(e) => lemma_tagged_bytes(TAG_EXPRESSION, seq![e]),
        None => {},
    }
    lemma_concat_both(q1, q2, l1, l2);
    lemma_concat_both(q1 + q2, q3, l1 + l2, l3);
    lemma_concat_both(q1 + q2 + q3, q4, l1 + l2 + l3, l4);
    lemma_concat_both(q1 + q2 + q3 + q4, q5, l1 + l2 + l3 + l4, l5);
    lemma_concat_both(q1 + q2 + q3 + q4 + q5, q6, l1 + l2 + l3 + l4 + l5, l6);
    lemma_concat_both(q1 + q2 + q3 + q4 + q5 + q6, q7, l1 + l2 + l3 + l4 + l5 + l6, l7);
}

proof fn lemma_cmd_lines_crlf_free(c: CmdView)
    requires
        text_fields_crlf_free(c),
    ensures
        all_crlf_free(cmd_lines(c)),
{
    let l1 = seq![(method_tag(c.method), Seq::<u8>::empty())];
    let l2 = tagged_lines(TAG_TABLE, seq![c.table]);
    let l3 = count_line(TAG_COLUMNS, c.columns.len());
    let l4 = tagged_lines(TAG_COLUMN, c.columns);
    let l5 = count_line(TAG_VALUES, c.values.len());
    let l6 = tagged_lines(TAG_VALUE, c.values);
    let l7 = expression_lines(c.expression);
    assert(all_crlf_free(l1));
    assert(all_crlf_free(l3));
    assert(all_crlf_free(l5));
    lemma_tagged_crlf_free(TAG_TABLE, seq![c.table]);
    lemma_tagged_crlf_free(TAG_COLUMN, c.columns);
    lemma_tagged_crlf_free(TAG_VALUE, c.values);
    match c.expression {
        Some(e) => lemma_tagged_crlf_free(TAG_EXPRESSION, seq![e]),
        None => {},
    }
    assert(all_crlf_free(l7));
    lemma_all_crlf_free_concat(l1, l2);
    lemma_all_crlf_free_concat(l1 + l2, l3);
    lemma_all_crlf_free_concat(l1 + l2 + l3, l4);
    lemma_all_crlf_free_concat(l1 + l2 + l3 + l4, l5);
    lemma_all_crlf_free_concat(l1 + l2 + l3 + l4 + l5, l6);
    lemma_all_crlf_free_concat(l1 + l2 + l3 + l4 + l5 + l6, l7);
}

proof fn lemma_fold_one(l: Line, c: CmdView)
    ensures
        fold_lines(seq![l], c) == apply_line(c, l.0, l.1),
{
    assert(seq![l].drop_last() =~= Seq::<Line>::empty());
    assert(fold_lines(Seq::<Line>::empty(), c) == Some(c));
}

proof fn lemma_tagged_one(tag: u8, x: Seq<char>)
    ensures
        tagged_lines(tag, seq![x]) == seq![(tag, encode_utf8(x))],
{
    assert(seq![x].drop_last() =~= Seq::<Seq<char>>::empty());
    assert(tagged_lines(tag, Seq::<Seq<char>>::empty()) == Seq::<Line>::empty());
    assert(tagged_lines(tag, seq![x]) =~= seq![(tag, encode_utf8(x))]);
}

proof fn lemma_cmd_fold(c: CmdView)
    requires
        c.method != Method::Null,
    ensures
        fold_lines(cmd_lines(c), empty_view(Method::Null)) == Some(read_back(c)),
{
    let v0 = empty_view(Method::Null);
    let l1 = seq![(method_tag(c.method), Seq::<u8>::empty())];
    let l2 = tagged_lines(TAG_TABLE, seq![c.table]);
    let l3 = count_line(TAG_COLUMNS, c.columns.len());
    let l4 = tagged_lines(TAG_COLUMN, c.columns);
    let l5 = count_line(TAG_VALUES, c.values.len());
    let l6 = tagged_lines(TAG_VALUE, c.values);
    let l7 = expression_lines(c.expression);
    // the method
    lemma_fold_one(l1[0], v0);
    let c1 = CmdView { method: c.method, ..v0 };
    assert(fold_lines(l1, v0) == Some(c1));
    // the table
    lemma_tagged_one(TAG_TABLE, c.table);
    lemma_fold_one((TAG_TABLE, encode_utf8(c.table)), c1);
    encode_utf8_valid_utf8(c.table);
    encode_utf8_decode_utf8(c.table);
    let c2 = CmdView { table: c.table, ..c1 };
    assert(fold_lines(l2, c1) == Some(c2));
    lemma_fold_concat(l1, l2, v0);
    // the column count
    lemma_fold_one(l3[0], c2);
    let c3 = CmdView { columns_len: (c.columns.len() as u8) as nat, ..c2 };
    assert(fold_lines(l3, c2) == Some(c3));
    lemma_fold_concat(l1 + l2, l3, v0);
    // the columns
    lemma_fold_tagged(TAG_COLUMN, c.columns, c3);
    let c4 = CmdView { columns: c.columns, ..c3 };
    assert(c3.columns + c.columns =~= c.columns);
    assert(fold_lines(l4, c3) == Some(c4));
    lemma_fold_concat(l1 + l2 + l3, l4, v0);
    // the value count
    lemma_fold_one(l5[0], c4);
    let c5 = CmdView { values_len: (c.values.len() as u8) as nat, ..c4 };
    assert(fold_lines(l5, c4) == Some(c5));
    lemma_fold_concat(l1 + l2 + l3 + l4, l5, v0);
    // the values
    lemma_fold_tagged(TAG_VALUE, c.values, c5);
    let c6 = CmdView { values: c.values, ..c5 };
    assert(c5.values + c.values =~= c.values);
    assert(fold_lines(l6, c5) == Some(c6));
    lemma_fold_concat(l1 + l2 + l3 + l4 + l5, l6, v0);
    // the expression
    match c.expression {
        Some(e) => {
            lemma_tagged_one(TAG_EXPRESSION, e);
            lemma_fold_one((TAG_EXPRESSION, encode_utf8(e)), c6);
            encode_utf8_valid_utf8(e);
            encode_utf8_decode_utf8(e);
        },
        None => {},
    }
    assert(fold_lines(l7, c6) == Some(read_back(c)));
    lemma_fold_concat(l1 + l2 + l3 + l4 + l5 + l6, l7, v0);
}

} // verus!
