use bytes::Bytes;
use vstd::prelude::*;
use vstd::string::*;
use vstd::utf8::*;

verus! {

/// `bytes::Bytes`, a shared buffer of bytes. Verus sees nothing inside a
/// value of it; what it holds is read through `bytes_content`.
#[verifier::external_type_specification]
#[verifier::external_body]
pub struct ExBytes(Bytes);

/// The bytes that a `Bytes` buffer holds.
pub uninterp spec fn bytes_content(b: Bytes) -> Seq<u8>;

/// `Bytes::from(&'static str)`: the buffer holds the UTF-8 bytes of the string.
#[verifier::external_body]
fn bytes_from_static_str(s: &'static str) -> (b: Bytes)
    ensures
        bytes_content(b) == s.spec_bytes(),
{
    Bytes::from(s)
}

/// `Bytes::from(String)`: the buffer holds the UTF-8 bytes of the string.
#[verifier::external_body]
fn bytes_from_string(s: String) -> (b: Bytes)
    ensures
        bytes_content(b) == encode_utf8(s@),
{
    Bytes::from(s)
}

/// `<[u8]>::to_vec` through `Bytes`'s `Deref`: a vector of the buffer's bytes.
#[verifier::external_body]
fn bytes_to_vec(b: &Bytes) -> (v: Vec<u8>)
    ensures
        v@ == bytes_content(*b),
{
    b.to_vec()
}

/// The tag bytes that open each field of a frame.
pub const TAG_QUERY: u8 = 38;  // '&'
pub const TAG_INSERT: u8 = 43;  // '+'
pub const TAG_UPDATE: u8 = 42;  // '*'
pub const TAG_DELETE: u8 = 45;  // '-'
pub const TAG_TABLE: u8 = 35;  // '#'
pub const TAG_COLUMNS: u8 = 64;  // '@'
pub const TAG_COLUMN: u8 = 94;  // '^'
pub const TAG_VALUES: u8 = 37;  // '%'
pub const TAG_VALUE: u8 = 33;  // '!'
pub const TAG_EXPRESSION: u8 = 63;  // '?'

/// The separator written after every field of a frame.
pub open spec fn crlf() -> Seq<u8> {
    seq![13u8, 10u8]
}

/// A piece of an array frame, with the content of a bulk buffer as bytes.
pub enum Piece {
    Sign(u8),
    Bulk(Seq<u8>),
    Interger(u8),
    Nested,
}

/// A frame: an array of signs, bulk buffers and counts, written to the wire
/// one after another.
#[derive(Debug)]
pub enum Frame {
    Sign(u8),
    Bulk(Bytes),
    Interger(u8),
    Array(Vec<Frame>),
}

pub open spec fn piece_of(f: Frame) -> Piece {
    match f {
        Frame::Sign(s) => Piece::Sign(s),
        Frame::Bulk(b) => Piece::Bulk(bytes_content(b)),
        Frame::Interger(n) => Piece::Interger(n),
        Frame::Array(_) => Piece::Nested,
    }
}

proof fn lemma_crlf_literal()
    ensures
        "\r\n".spec_bytes() == crlf(),
{
    reveal_strlit("\r\n");
    assert(encode_scalar('\n' as u32) == seq![10u8]) by {
        assert(leading_byte_width_1(10u32) == 10u8) by (bit_vector);
    }
    assert(encode_scalar('\r' as u32) == seq![13u8]) by {
        assert(leading_byte_width_1(13u32) == 13u8) by (bit_vector);
    }
    let s = "\r\n"@;
    assert(s.len() == 2 && s[0] == '\r' && s[1] == '\n');
    let t = s.drop_first();
    assert(t.len() == 1 && t[0] == '\n');
    assert(t.drop_first() =~= Seq::<char>::empty());
    assert(encode_utf8(t.drop_first()) =~= Seq::<u8>::empty());
    assert(encode_utf8(t) =~= seq![10u8]);
    assert(encode_utf8(s) =~= crlf());
}

/// The pieces that a sequence of tagged strings becomes: for each string,
/// its tag, its UTF-8 bytes and the separator.
pub open spec fn tagged_pieces(tag: u8, items: Seq<Seq<char>>) -> Seq<Piece>
    decreases items.len(),
{
    if items.len() == 0 {
        Seq::empty()
    } else {
        tagged_pieces(tag, items.drop_last()) + seq![
            Piece::Sign(tag),
            Piece::Bulk(encode_utf8(items.last())),
            Piece::Bulk(crlf()),
        ]
    }
}

/// The bytes that one piece is written as.
pub open spec fn piece_bytes(p: Piece) -> Seq<u8> {
    match p {
        Piece::Sign(s) => seq![s],
        Piece::Bulk(b) => b,
        Piece::Interger(n) => seq![n],
        Piece::Nested => Seq::empty(),
    }
}

/// The bytes that a sequence of pieces is written as, in order.
pub open spec fn pieces_bytes(ps: Seq<Piece>) -> Seq<u8>
    decreases ps.len(),
{
    if ps.len() == 0 {
        Seq::empty()
    } else {
        pieces_bytes(ps.drop_last()) + piece_bytes(ps.last())
    }
}

pub open spec fn has_nested(ps: Seq<Piece>) -> bool {
    exists|i: int| 0 <= i < ps.len() && #[trigger] ps[i] is Nested
}

proof fn lemma_tagged_one(tag: u8, x: Seq<char>)
    ensures
        tagged_pieces(tag, seq![x]) == seq![
            Piece::Sign(tag),
            Piece::Bulk(encode_utf8(x)),
            Piece::Bulk(crlf()),
        ],
{
    assert(seq![x].drop_last() =~= Seq::<Seq<char>>::empty());
    assert(tagged_pieces(tag, Seq::<Seq<char>>::empty()) == Seq::<Piece>::empty());
    assert(tagged_pieces(tag, seq![x]) =~= seq![
        Piece::Sign(tag),
        Piece::Bulk(encode_utf8(x)),
        Piece::Bulk(crlf()),
    ]);
}

impl Frame {
    pub open spec fn is_array(&self) -> bool {
        self is Array
    }

    /// The pieces of an array frame; empty for any other frame.
    pub open spec fn pieces(&self) -> Seq<Piece> {
        match self {
            Frame::Array(v) => v@.map_values(|f: Frame| piece_of(f)),
            _ => Seq::empty(),
        }
    }

    pub fn array() -> (f: Frame)
        ensures
            f.is_array(),
            f.pieces() == Seq::<Piece>::empty(),
    {
        Frame::Array(Vec::new())
    }

    #[allow(non_snake_case)]
    pub fn push_Sign(&mut self, sign: u8)
        requires
            old(self).is_array(),
        ensures
            final(self).is_array(),
            final(self).pieces() == old(self).pieces() + seq![Piece::Sign(sign), Piece::Bulk(crlf())],
    {
        proof { lemma_crlf_literal(); }
        match self {
            Frame::Array(vec) => {
                vec.push(Frame::Sign(sign));
                vec.push(Frame::Bulk(bytes_from_static_str("\r\n")));
            },
            _ => {},
        }
        assert(self.pieces() =~= old(self).pieces() + seq![Piece::Sign(sign), Piece::Bulk(crlf())]);
    }

    /// Appends one tagged string: its tag, its bytes and the separator.
    /// A frame that is not an array is left as it is.
    fn push_tagged(&mut self, tag: u8, text: String)
        ensures
            old(self).is_array() ==> final(self).is_array() && final(self).pieces() == old(
                self,
            ).pieces() + seq![
                Piece::Sign(tag),
                Piece::Bulk(encode_utf8(text@)),
                Piece::Bulk(crlf()),
            ],
            !old(self).is_array() ==> *final(self) == *old(self),
    {
        proof { lemma_crlf_literal(); }
        match self {
            Frame::Array(vec) => {
                vec.push(Frame::Sign(tag));
                vec.push(Frame::Bulk(bytes_from_string(text)));
                vec.push(Frame::Bulk(bytes_from_static_str("\r\n")));
            },
            _ => {},
        }
        assert(old(self).is_array() ==> self.pieces() =~= old(self).pieces() + seq![
            Piece::Sign(tag),
            Piece::Bulk(encode_utf8(text@)),
            Piece::Bulk(crlf()),
        ]);
    }

    pub fn push_table(&mut self, table: &str)
        requires
            old(self).is_array(),
        ensures
            final(self).is_array(),
            final(self).pieces() == old(self).pieces() + tagged_pieces(TAG_TABLE, seq![table@]),
    {
        self.push_tagged(TAG_TABLE, String::from_str(table));
        proof { lemma_tagged_one(TAG_TABLE, table@); }
    }

    /// Appends a count: its tag, the count as one byte and the separator.
    fn push_count(&mut self, tag: u8, n: u8)
        requires
            old(self).is_array(),
        ensures
            final(self).is_array(),
            final(self).pieces() == old(self).pieces() + seq![
                Piece::Sign(tag),
                Piece::Interger(n),
                Piece::Bulk(crlf()),
            ],
    {
        proof { lemma_crlf_literal(); }
        match self {
            Frame::Array(vec) => {
                vec.push(Frame::Sign(tag));
                vec.push(Frame::Interger(n));
                vec.push(Frame::Bulk(bytes_from_static_str("\r\n")));
            },
            _ => {},
        }
        assert(self.pieces() =~= old(self).pieces() + seq![
            Piece::Sign(tag),
            Piece::Interger(n),
            Piece::Bulk(crlf()),
        ]);
    }

    /// Appends each string of `items` under `tag`, in order.
    fn push_all(&mut self, tag: u8, items: &Vec<String>)
        requires
            old(self).is_array(),
        ensures
            final(self).is_array(),
            final(self).pieces() == old(self).pieces() + tagged_pieces(
                tag,
                items@.map_values(|s: String| s@),
            ),
    {
        let ghost base = self.pieces();
        let ghost all = items@.map_values(|s: String| s@);
        for i in 0..items.len()
            invariant
                self.is_array(),
                all == items@.map_values(|s: String| s@),
                self.pieces() == base + tagged_pieces(tag, all.take(i as int)),
        {
            self.push_tagged(tag, items[i].clone());
            assert(all.take(i + 1).drop_last() =~= all.take(i as int));
            assert(self.pieces() =~= base + tagged_pieces(tag, all.take(i + 1)));
        }
        assert(all.take(items.len() as int) =~= all);
    }

    pub fn push_columns(&mut self, columns: &Vec<String>)
        requires
            old(self).is_array(),
        ensures
            final(self).is_array(),
            final(self).pieces() == old(self).pieces() + seq![
                Piece::Sign(TAG_COLUMNS),
                Piece::Interger(columns@.len() as u8),
                Piece::Bulk(crlf()),
            ] + tagged_pieces(TAG_COLUMN, columns@.map_values(|s: String| s@)),
    {
        let len = columns.len() as u8;
        self.push_count(TAG_COLUMNS, len);
        self.push_all(TAG_COLUMN, columns);
    }

    pub fn push_values(&mut self, values: &Vec<String>)
        requires
            old(self).is_array(),
        ensures
            final(self).is_array(),
            final(self).pieces() == old(self).pieces() + seq![
                Piece::Sign(TAG_VALUES),
                Piece::Interger(values@.len() as u8),
                Piece::Bulk(crlf()),
            ] + tagged_pieces(TAG_VALUE, values@.map_values(|s: String| s@)),
    {
        let len = values.len() as u8;
        self.push_count(TAG_VALUES, len);
        self.push_all(TAG_VALUE, values);
    }

    pub fn push_expression(&mut self, expression: &Option<String>)
        requires
            expression is Some ==> old(self).is_array(),
        ensures
            match expression {
                Some(e) => final(self).is_array() && final(self).pieces() == old(self).pieces()
                    + tagged_pieces(TAG_EXPRESSION, seq![e@]),
                None => *final(self) == *old(self),
            },
    {
        if let Some(expression) = expression {
            self.push_tagged(TAG_EXPRESSION, expression.clone());
            proof { lemma_tagged_one(TAG_EXPRESSION, expression@); }
        }
    }

    /// The bytes that the pieces of an array frame are written as, in order;
    /// empty for a frame that is not an array, and `None` where an array
    /// holds another array.
    pub fn to_bytes(&self) -> (res: Option<Vec<u8>>)
        ensures
            res is Some <==> !has_nested(self.pieces()),
            res matches Some(v) ==> v@ == pieces_bytes(self.pieces()),
    {
        match self {
            Frame::Array(frames) => {
                let mut out: Vec<u8> = Vec::new();
                let ghost ps = self.pieces();
                for i in 0..frames.len()
                    invariant
                        ps == self.pieces(),
                        ps == frames@.map_values(|f: Frame| piece_of(f)),
                        forall|j: int| 0 <= j < i ==> !(#[trigger] ps[j] is Nested),
                        out@ == pieces_bytes(ps.take(i as int)),
                {
                    assert(ps.take(i + 1).drop_last() =~= ps.take(i as int));
                    assert(ps[i as int] == piece_of(frames@[i as int]));
                    match &frames[i] {
                        Frame::Sign(s) => {
                            out.push(*s);
                        },
                        Frame::Bulk(b) => {
                            let mut v = bytes_to_vec(b);
                            out.append(&mut v);
                        },
                        Frame::Interger(n) => {
                            out.push(*n);
                        },
                        Frame::Array(_) => {
                            assert(ps[i as int] is Nested);
                            return None;
                        },
                    }
                    assert(out@ =~= pieces_bytes(ps.take(i + 1)));
                }
                assert(ps.take(frames.len() as int) =~= ps);
                Some(out)
            },
            _ => {
                Some(Vec::new())
            },
        }
    }
}

} // verus!
