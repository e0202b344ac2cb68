use crate::frame::{
    crlf, tagged_pieces, Frame, Piece, TAG_COLUMN, TAG_COLUMNS, TAG_DELETE, TAG_EXPRESSION,
    TAG_INSERT, TAG_QUERY, TAG_TABLE, TAG_UPDATE, TAG_VALUE, TAG_VALUES,
};
use crate::line::{get_line, lemma_next_line_shorter, next_line};
use crate::text::{join, join_strings, string_from_utf8, views};
use vstd::utf8::{decode_utf8, valid_utf8};
use vstd::prelude::*;

verus! {

#[derive(Debug, Clone, Copy, PartialEq, Eq, Structural)]
pub enum Method {
    Null,
    Query,
    Insert,
    Update,
    Delete,
}

#[derive(Debug)]
pub struct Cmd {
    pub method: Method,
    table: String,
    columns: Vec<String>,
    columns_len: usize,
    values: Vec<String>,
    values_len: usize,
    expression: Option<String>,
}

/// What a command holds, with its strings as character sequences.
#[verifier::ext_equal]
pub struct CmdView {
    pub method: Method,
    pub table: Seq<char>,
    pub columns: Seq<Seq<char>>,
    pub columns_len: nat,
    pub values: Seq<Seq<char>>,
    pub values_len: nat,
    pub expression: Option<Seq<char>>,
}

pub open spec fn option_view(o: Option<String>) -> Option<Seq<char>> {
    match o {
        Some(s) => Some(s@),
        None => None,
    }
}

impl View for Cmd {
    type V = CmdView;

    closed spec fn view(&self) -> CmdView {
        CmdView {
            method: self.method,
            table: self.table@,
            columns: views(self.columns@),
            columns_len: self.columns_len as nat,
            values: views(self.values@),
            values_len: self.values_len as nat,
            expression: option_view(self.expression),
        }
    }
}

/// A command with the given method and nothing else in it.
pub open spec fn empty_view(method: Method) -> CmdView {
    CmdView {
        method,
        table: Seq::empty(),
        columns: Seq::empty(),
        columns_len: 0,
        values: Seq::empty(),
        values_len: 0,
        expression: None,
    }
}

/// The column list of a statement: `*` when there is no column.
pub open spec fn columns_text(c: CmdView) -> Seq<char> {
    if c.columns.len() == 0 {
        "*"@
    } else {
        join(c.columns, ","@)
    }
}

pub open spec fn quoted(v: Seq<char>) -> Seq<char> {
    "'"@ + v + "'"@
}

/// The value list of a statement: each value in single quotes.
pub open spec fn values_text(c: CmdView) -> Seq<char> {
    join(c.values.map_values(|v: Seq<char>| quoted(v)), ","@)
}

/// The condition of a statement: the expression, or nothing.
pub open spec fn condition_text(c: CmdView) -> Seq<char> {
    match c.expression {
        Some(e) => e,
        None => Seq::empty(),
    }
}

pub open spec fn query_text(c: CmdView) -> Seq<char> {
    "SELECT "@ + columns_text(c) + " FROM "@ + c.table + " "@ + condition_text(c)
}

pub open spec fn insert_text(c: CmdView) -> Seq<char> {
    "INSERT INTO "@ + c.table + "("@ + columns_text(c) + ") values("@ + values_text(c) + ")"@
}

/// The first `columns_len` columns, each set to its value.
pub open spec fn assignments(c: CmdView) -> Seq<Seq<char>> {
    Seq::new(c.columns_len, |i: int| c.columns[i] + " = "@ + quoted(c.values[i]))
}

pub open spec fn update_text(c: CmdView) -> Seq<char> {
    "UPDATE "@ + c.table + " SET "@ + join(assignments(c), ","@) + " "@ + condition_text(c)
}

pub open spec fn delete_text(c: CmdView) -> Seq<char> {
    "DELETE FROM "@ + c.table + " "@ + condition_text(c)
}

/// The tag that a method is written as; a command without a method has none.
pub open spec fn method_tag(m: Method) -> u8 {
    match m {
        Method::Query => TAG_QUERY,
        Method::Insert => TAG_INSERT,
        Method::Update => TAG_UPDATE,
        Method::Delete => TAG_DELETE,
        Method::Null => 0,
    }
}

pub open spec fn count_pieces(tag: u8, n: nat) -> Seq<Piece> {
    seq![Piece::Sign(tag), Piece::Interger(n as u8), Piece::Bulk(crlf())]
}

pub open spec fn expression_pieces(e: Option<Seq<char>>) -> Seq<Piece> {
    match e {
        Some(e) => tagged_pieces(TAG_EXPRESSION, seq![e]),
        None => Seq::empty(),
    }
}

/// The pieces of the frame of a command: method, table, column count and
/// columns, value count and values, then the expression if there is one.
pub open spec fn cmd_pieces(c: CmdView) -> Seq<Piece> {
    seq![Piece::Sign(method_tag(c.method)), Piece::Bulk(crlf())]
        + tagged_pieces(TAG_TABLE, seq![c.table])
        + count_pieces(TAG_COLUMNS, c.columns.len())
        + tagged_pieces(TAG_COLUMN, c.columns)
        + count_pieces(TAG_VALUES, c.values.len())
        + tagged_pieces(TAG_VALUE, c.values)
        + expression_pieces(c.expression)
}

/// What one line of a frame does to the command read so far; `None` for a
/// line that cannot be read: an unknown tag, a count with no byte, or text
/// that is not UTF-8.
pub open spec fn apply_line(c: CmdView, tag: u8, data: Seq<u8>) -> Option<CmdView> {
    if tag == TAG_QUERY {
        Some(CmdView { method: Method::Query, ..c })
    } else if tag == TAG_INSERT {
        Some(CmdView { method: Method::Insert, ..c })
    } else if tag == TAG_UPDATE {
        Some(CmdView { method: Method::Update, ..c })
    } else if tag == TAG_DELETE {
        Some(CmdView { method: Method::Delete, ..c })
    } else if tag == TAG_COLUMNS || tag == TAG_VALUES {
        if data.len() == 0 {
            None
        } else if tag == TAG_COLUMNS {
            Some(CmdView { columns_len: data[0] as nat, ..c })
        } else {
            Some(CmdView { values_len: data[0] as nat, ..c })
        }
    } else if tag == TAG_TABLE || tag == TAG_COLUMN || tag == TAG_VALUE || tag == TAG_EXPRESSION {
        if !valid_utf8(data) {
            None
        } else {
            let text = decode_utf8(data);
            if tag == TAG_TABLE {
                Some(CmdView { table: text, ..c })
            } else if tag == TAG_COLUMN {
                Some(CmdView { columns: c.columns.push(text), ..c })
            } else if tag == TAG_VALUE {
                Some(CmdView { values: c.values.push(text), ..c })
            } else {
                Some(CmdView { expression: Some(text), ..c })
            }
        }
    } else {
        None
    }
}

/// The command read from the lines of `t`, starting from `c`; `None` where
/// some line cannot be read.
pub open spec fn parse_from(t: Seq<u8>, c: CmdView) -> Option<CmdView>
    decreases t.len(),
{
    match next_line(t) {
        None => Some(c),
        Some((tag, data, rest)) => {
            proof {
                lemma_next_line_shorter(t);
            }
            match apply_line(c, tag, data) {
                Some(c2) => parse_from(rest, c2),
                None => None,
            }
        },
    }
}

/// The command that the bytes of a frame hold.
pub open spec fn spec_from_vec(src: Seq<u8>) -> Option<CmdView> {
    parse_from(src, empty_view(Method::Null))
}

fn strings_of(items: Vec<&str>) -> (res: Vec<String>)
    ensures
        views(res@) == items@.map_values(|s: &str| s@),
{
    let mut res: Vec<String> = Vec::new();
    for i in 0..items.len()
        invariant
            res@.len() == i,
            forall|j: int| 0 <= j < i ==> #[trigger] res@[j]@ == items@[j]@,
    {
        res.push(String::from_str(items[i]));
    }
    assert(views(res@) =~= items@.map_values(|s: &str| s@));
    res
}

impl Cmd {
    pub fn build(method: Method) -> (c: Cmd)
        ensures
            c@ == empty_view(method),
            c@.method == method,
            c@.table.len() == 0,
            c@.columns.len() == 0,
            c@.columns_len == 0,
            c@.values.len() == 0,
            c@.values_len == 0,
            c@.expression is None,
    {
        let c = Cmd {
            method,
            table: String::new(),
            columns: Vec::new(),
            columns_len: 0,
            values: Vec::new(),
            values_len: 0,
            expression: None,
        };
        assert(c@ =~= empty_view(method));
        c
    }

    /// Reads a command from the bytes of its frame; `None` where the
    /// bytes hold a line that cannot be read.
    pub fn try_from_vec(src: &[u8]) -> (res: Option<Cmd>)
        ensures
            match spec_from_vec(src@) {
                Some(v) => res matches Some(c) && c@ == v,
                None => res is None,
            },
    {
        let mut cmd = Cmd::build(Method::Null);
        let mut pos: usize = 0;
        assert(src@.skip(0) =~= src@);
        loop
            invariant
                pos <= src@.len(),
                spec_from_vec(src@) == parse_from(src@.skip(pos as int), cmd@),
            decreases src@.len() - pos,
        {
            let ghost t = src@.skip(pos as int);
            let ghost before = cmd@;
            match get_line(src, &mut pos) {
                None => {
                    return Some(cmd);
                },
                Some((tag, data)) => {
                    if tag == TAG_QUERY {
                        cmd.method = Method::Query;
                    } else if tag == TAG_INSERT {
                        cmd.method = Method::Insert;
                    } else if tag == TAG_UPDATE {
                        cmd.method = Method::Update;
                    } else if tag == TAG_DELETE {
                        cmd.method = Method::Delete;
                    } else if tag == TAG_COLUMNS || tag == TAG_VALUES {
                        if data.len() == 0 {
                            return None;
                        } else if tag == TAG_COLUMNS {
                            cmd.columns_len = data[0] as usize;
                        } else {
                            cmd.values_len = data[0] as usize;
                        }
                    } else if tag == TAG_TABLE || tag == TAG_COLUMN || tag == TAG_VALUE || tag
                        == TAG_EXPRESSION {
                        match string_from_utf8(data) {
                            None => {
                                return None;
                            },
                            Some(text) => {
                                if tag == TAG_TABLE {
                                    cmd.table = text;
                                } else if tag == TAG_COLUMN {
                                    cmd.columns.push(text);
                                } else if tag == TAG_VALUE {
                                    cmd.values.push(text);
                                } else {
                                    cmd.expression = Some(text);
                                }
                            },
                        }
                    } else {
                        return None;
                    }
                    assert(cmd@ =~= apply_line(before, tag, data@)->0);
                },
            }
        }
    }

    /// Reads a command from the bytes of its frame.
    pub fn from_vec(src: &[u8]) -> (c: Cmd)
        requires
            spec_from_vec(src@) is Some,
        ensures
            c@ == spec_from_vec(src@)->0,
    {
        Self::try_from_vec(src).unwrap()
    }

    pub fn set_table(&mut self, table: &str) -> (r: &mut Self)
        ensures
            r@ == (CmdView { table: table@, ..old(self)@ }),
            *final(self) == *final(r),
    {
        self.table = String::from_str(table);
        self
    }

    /// Replaces the columns; the recorded column count is left as it is.
    pub fn set_columns(&mut self, columns: Vec<&str>) -> (r: &mut Self)
        ensures
            r@ == (CmdView { columns: columns@.map_values(|s: &str| s@), ..old(self)@ }),
            *final(self) == *final(r),
    {
        self.columns = strings_of(columns);
        self
    }

    fn get_columns(&self) -> (res: String)
        ensures
            res@ == columns_text(self@),
    {
        if self.columns.len() == 0 {
            String::from_str("*")
        } else {
            join_strings(&self.columns, ",")
        }
    }

    /// Replaces the values; the recorded value count is left as it is.
    pub fn set_values(&mut self, values: Vec<&str>) -> (r: &mut Self)
        ensures
            r@ == (CmdView { values: values@.map_values(|s: &str| s@), ..old(self)@ }),
            *final(self) == *final(r),
    {
        self.values = strings_of(values);
        self
    }

    fn get_values(&self) -> (res: String)
        ensures
            res@ == values_text(self@),
    {
        let mut quoted_values: Vec<String> = Vec::new();
        for i in 0..self.values.len()
            invariant
                quoted_values@.len() == i,
                forall|j: int|
                    0 <= j < i ==> #[trigger] quoted_values@[j]@ == quoted(self.values@[j]@),
        {
            let mut q = String::from_str("'");
            q.append(self.values[i].as_str());
            q.append("'");
            quoted_values.push(q);
        }
        assert(views(quoted_values@) =~= self@.values.map_values(|v: Seq<char>| quoted(v)));
        join_strings(&quoted_values, ",")
    }

    pub fn set_condition(&mut self, condition: &str) -> (r: &mut Self)
        ensures
            r@ == (CmdView { expression: Some(condition@), ..old(self)@ }),
            *final(self) == *final(r),
    {
        self.expression = Some(String::from_str(condition));
        self
    }

    fn get_condition(&self) -> (res: String)
        ensures
            res@ == condition_text(self@),
    {
        match &self.expression {
            Some(exp) => exp.clone(),
            None => String::new(),
        }
    }

    /// The frame of this command.
    pub fn into_frame(&mut self) -> (frame: Frame)
        requires
            old(self)@.method != Method::Null,
        ensures
            *final(self) == *old(self),
            frame.is_array(),
            frame.pieces() == cmd_pieces(old(self)@),
    {
        let mut frame = Frame::array();
        match self.method {
            Method::Query => frame.push_Sign(TAG_QUERY),
            Method::Insert => frame.push_Sign(TAG_INSERT),
            Method::Update => frame.push_Sign(TAG_UPDATE),
            Method::Delete => frame.push_Sign(TAG_DELETE),
            Method::Null => {},
        }
        frame.push_table(self.table.as_str());
        frame.push_columns(&self.columns);
        frame.push_values(&self.values);
        frame.push_expression(&self.expression);
        assert(frame.pieces() =~= cmd_pieces(self@));
        frame
    }

    pub fn query_execution(&self) -> (res: String)
        ensures
            res@ == query_text(self@),
    {
        let mut s = String::from_str("SELECT ");
        s.append(self.get_columns().as_str());
        s.append(" FROM ");
        s.append(self.table.as_str());
        s.append(" ");
        s.append(self.get_condition().as_str());
        s
    }

    pub fn insert_execution(&self) -> (res: String)
        ensures
            res@ == insert_text(self@),
    {
        let mut s = String::from_str("INSERT INTO ");
        s.append(self.table.as_str());
        s.append("(");
        s.append(self.get_columns().as_str());
        s.append(") values(");
        s.append(self.get_values().as_str());
        s.append(")");
        s
    }

    /// Whether the recorded column count reaches no further than the
    /// columns and the values, as `update_execution` needs.
    pub fn update_fits(&self) -> (b: bool)
        ensures
            b == (self@.columns_len <= self@.columns.len() && self@.columns_len
                <= self@.values.len()),
    {
        self.columns_len <= self.columns.len() && self.columns_len <= self.values.len()
    }

    pub fn update_execution(&self) -> (res: String)
        requires
            self@.columns_len <= self@.columns.len(),
            self@.columns_len <= self@.values.len(),
        ensures
            res@ == update_text(self@),
    {
        let mut execute: Vec<String> = Vec::new();
        for i in 0..self.columns_len
            invariant
                self.columns_len <= self.columns.len(),
                self.columns_len <= self.values.len(),
                execute@.len() == i,
                forall|j: int|
                    0 <= j < i ==> #[trigger] execute@[j]@ == assignments(self@)[j],
        {
            let mut a = String::from_str(self.columns[i].as_str());
            a.append(" = ");
            a.append("'");
            a.append(self.values[i].as_str());
            a.append("'");
            execute.push(a);
        }
        assert(views(execute@) =~= assignments(self@));
        let mut s = String::from_str("UPDATE ");
        s.append(self.table.as_str());
        s.append(" SET ");
        s.append(join_strings(&execute, ",").as_str());
        s.append(" ");
        s.append(self.get_condition().as_str());
        s
    }

    /// The statement that the server runs for this command: the one that its
    /// method names, and none for a command without a method.
    pub fn statement(&self) -> (res: Option<String>)
        requires
            self@.method == Method::Update ==> self@.columns_len <= self@.columns.len()
                && self@.columns_len <= self@.values.len(),
        ensures
            match self@.method {
                Method::Null => res is None,
                Method::Query => res matches Some(s) && s@ == query_text(self@),
                Method::Insert => res matches Some(s) && s@ == insert_text(self@),
                Method::Update => res matches Some(s) && s@ == update_text(self@),
                Method::Delete => res matches Some(s) && s@ == delete_text(self@),
            },
    {
        match self.method {
            Method::Null => None,
            Method::Query => Some(self.query_execution()),
            Method::Insert => Some(self.insert_execution()),
            Method::Update => Some(self.update_execution()),
            Method::Delete => Some(self.delete_execution()),
        }
    }

    pub fn delete_execution(&self) -> (res: String)
        ensures
            res@ == delete_text(self@),
    {
        let mut s = String::from_str("DELETE FROM ");
        s.append(self.table.as_str());
        s.append(" ");
        s.append(self.get_condition().as_str());
        s
    }
}

} // verus!
