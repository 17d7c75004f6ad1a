use vstd::prelude::*;

use crate::strutil::{
    digits_only, find_char, first_index, has_prefix, is_prefix, lemma_first_index_props, name_ok,
    substring_copy,
};

verus! {

/// Who may read and write a table, as declared in the creation request
/// and carried on the wire with it. The service records the declaration;
/// it applies no enforcement.
#[derive(Clone, Copy, Debug, PartialEq, Eq, Structural)]
pub enum TableAccessType {
    PublicRead,
    PublicWrite,
    Private,
}

/// The word under which an access declaration travels in a creation text.
pub open spec fn access_word(a: TableAccessType) -> Seq<char> {
    match a {
        TableAccessType::PublicRead => "PUBLIC_READ"@,
        TableAccessType::PublicWrite => "PUBLIC_WRITE"@,
        TableAccessType::Private => "PRIVATE"@,
    }
}

/// The access declaration a word stands for, or `None` for any other word.
pub open spec fn access_of_word(w: Seq<char>) -> Option<TableAccessType> {
    if w == "PUBLIC_READ"@ {
        Some(TableAccessType::PublicRead)
    } else if w == "PUBLIC_WRITE"@ {
        Some(TableAccessType::PublicWrite)
    } else if w == "PRIVATE"@ {
        Some(TableAccessType::Private)
    } else {
        None
    }
}

/// Maps an access word to its declaration, as [`access_of_word`] says.
pub fn parse_access(w: &str) -> (r: Option<TableAccessType>)
    ensures
        r == access_of_word(w@),
{
    if crate::strutil::str_eq(w, "PUBLIC_READ") {
        Some(TableAccessType::PublicRead)
    } else if crate::strutil::str_eq(w, "PUBLIC_WRITE") {
        Some(TableAccessType::PublicWrite)
    } else if crate::strutil::str_eq(w, "PRIVATE") {
        Some(TableAccessType::Private)
    } else {
        None
    }
}

/// The text under which an access declaration travels, the inverse
/// reading of [`access_of_word`].
pub fn access_text(a: TableAccessType) -> (r: &'static str)
    ensures
        r@ == access_word(a),
{
    match a {
        TableAccessType::PublicRead => "PUBLIC_READ",
        TableAccessType::PublicWrite => "PUBLIC_WRITE",
        TableAccessType::Private => "PRIVATE",
    }
}

/// Mathematical image of a [`QueryRequest`].
#[verifier::ext_equal]
pub enum QueryRequestView {
    /// `SELECT <digits>` or `SELECT <digits> as <name>`: one row holding
    /// the literal.
    SelectLiteral { value: Seq<char> },
    /// `SELECT * FROM <schema>.<table>[ <clause>]`: every row of the table.
    SelectAll { schema: Seq<char>, table: Seq<char>, clause: Seq<char> },
    /// `INSERT INTO <schema>.<table> (<fields>) VALUES <values>`.
    Insert { schema: Seq<char>, table: Seq<char>, fields: Seq<char>, values: Seq<char> },
    /// `DELETE FROM <schema>.<table> WHERE <column> = <value>`.
    DeleteFrom { schema: Seq<char>, table: Seq<char>, column: Seq<char>, value: Seq<char> },
    /// `CREATE TABLE <schema>.<table> <ACCESS> (<columns>)`, with the
    /// declared access carried beside the column text.
    CreateTable {
        schema: Seq<char>,
        table: Seq<char>,
        access: TableAccessType,
        columns: Seq<char>,
    },
}

/// A parsed query of the small SQL-like grammar the service speaks.
pub enum QueryRequest {
    SelectLiteral { value: String },
    SelectAll { schema: String, table: String, clause: String },
    Insert { schema: String, table: String, fields: String, values: String },
    DeleteFrom { schema: String, table: String, column: String, value: String },
    CreateTable { schema: String, table: String, access: TableAccessType, columns: String },
}

impl View for QueryRequest {
    type V = QueryRequestView;

    open spec fn view(&self) -> QueryRequestView {
        match self {
            QueryRequest::SelectLiteral { value } => QueryRequestView::SelectLiteral {
                value: value@,
            },
            QueryRequest::SelectAll { schema, table, clause } => QueryRequestView::SelectAll {
                schema: schema@,
                table: table@,
                clause: clause@,
            },
            QueryRequest::Insert { schema, table, fields, values } => QueryRequestView::Insert {
                schema: schema@,
                table: table@,
                fields: fields@,
                values: values@,
            },
            QueryRequest::DeleteFrom { schema, table, column, value } => (
            QueryRequestView::DeleteFrom {
                schema: schema@,
                table: table@,
                column: column@,
                value: value@,
            }),
            QueryRequest::CreateTable { schema, table, access, columns } => (
            QueryRequestView::CreateTable {
                schema: schema@,
                table: table@,
                access: *access,
                columns: columns@,
            }),
        }
    }
}

/// Splits `<schema>.<table>` at its first dot; both halves must be names.
pub open spec fn qualified_of(s: Seq<char>) -> Option<(Seq<char>, Seq<char>)> {
    let i = first_index(s, '.');
    if i < 0 {
        None
    } else {
        let schema = s.subrange(0, i);
        let table = s.subrange(i + 1, s.len() as int);
        if name_ok(schema) && name_ok(table) {
            Some((schema, table))
        } else {
            None
        }
    }
}

/// Reads `WHERE <column> = <value>`: the column and the compared value.
pub open spec fn where_of(s: Seq<char>) -> Option<(Seq<char>, Seq<char>)> {
    if !is_prefix("WHERE "@, s) {
        None
    } else {
        let rem = s.subrange("WHERE "@.len() as int, s.len() as int);
        let i = first_index(rem, ' ');
        if i < 0 {
            None
        } else {
            let col = rem.subrange(0, i);
            let rest = rem.subrange(i + 1, rem.len() as int);
            if name_ok(col) && is_prefix("= "@, rest) {
                let v = rest.subrange("= "@.len() as int, rest.len() as int);
                if v.len() > 0 {
                    Some((col, v))
                } else {
                    None
                }
            } else {
                None
            }
        }
    }
}

/// The meaning of a query text under the grammar: the parsed request, or
/// `None` when the text is rejected as unparseable.
pub open spec fn query_of_text(s: Seq<char>) -> Option<QueryRequestView> {
    if is_prefix("SELECT * FROM "@, s) {
        let rest = s.subrange("SELECT * FROM "@.len() as int, s.len() as int);
        let j = first_index(rest, ' ');
        if j < 0 {
            match qualified_of(rest) {
                None => None,
                Some((schema, table)) => Some(
                    QueryRequestView::SelectAll { schema, table, clause: Seq::<char>::empty() },
                ),
            }
        } else {
            let clause = rest.subrange(j + 1, rest.len() as int);
            if clause.len() == 0 {
                None
            } else {
                match qualified_of(rest.subrange(0, j)) {
                    None => None,
                    Some((schema, table)) => Some(
                        QueryRequestView::SelectAll { schema, table, clause },
                    ),
                }
            }
        }
    } else if is_prefix("SELECT "@, s) {
        let rest = s.subrange("SELECT "@.len() as int, s.len() as int);
        let j = first_index(rest, ' ');
        if j < 0 {
            if rest.len() > 0 && digits_only(rest) {
                Some(QueryRequestView::SelectLiteral { value: rest })
            } else {
                None
            }
        } else {
            let value = rest.subrange(0, j);
            let rem = rest.subrange(j + 1, rest.len() as int);
            if value.len() > 0 && digits_only(value) && is_prefix("as "@, rem) && name_ok(
                rem.subrange("as "@.len() as int, rem.len() as int),
            ) {
                Some(QueryRequestView::SelectLiteral { value })
            } else {
                None
            }
        }
    } else if is_prefix("INSERT INTO "@, s) {
        let rest = s.subrange("INSERT INTO "@.len() as int, s.len() as int);
        let j = first_index(rest, ' ');
        if j < 0 {
            None
        } else {
            match qualified_of(rest.subrange(0, j)) {
                None => None,
                Some((schema, table)) => {
                    let after = rest.subrange(j + 1, rest.len() as int);
                    let k = first_index(after, ')');
                    if !is_prefix("("@, after) || k < 1 {
                        None
                    } else {
                        let fields = after.subrange(1, k);
                        let tail = after.subrange(k, after.len() as int);
                        if is_prefix(") VALUES "@, tail) {
                            let values = tail.subrange(") VALUES "@.len() as int, tail.len() as int);
                            if fields.len() > 0 && values.len() > 0 {
                                Some(QueryRequestView::Insert { schema, table, fields, values })
                            } else {
                                None
                            }
                        } else {
                            None
                        }
                    }
                },
            }
        }
    } else if is_prefix("DELETE FROM "@, s) {
        let rest = s.subrange("DELETE FROM "@.len() as int, s.len() as int);
        let j = first_index(rest, ' ');
        if j < 0 {
            None
        } else {
            match qualified_of(rest.subrange(0, j)) {
                None => None,
                Some((schema, table)) => match where_of(rest.subrange(j + 1, rest.len() as int)) {
                    None => None,
                    Some((column, value)) => Some(
                        QueryRequestView::DeleteFrom { schema, table, column, value },
                    ),
                },
            }
        }
    } else if is_prefix("CREATE TABLE "@, s) {
        let rest = s.subrange("CREATE TABLE "@.len() as int, s.len() as int);
        let j = first_index(rest, ' ');
        if j < 0 {
            None
        } else {
            match qualified_of(rest.subrange(0, j)) {
                None => None,
                Some((schema, table)) => {
                    let after = rest.subrange(j + 1, rest.len() as int);
                    let k = first_index(after, ' ');
                    if k < 0 {
                        None
                    } else {
                        match access_of_word(after.subrange(0, k)) {
                            None => None,
                            Some(access) => {
                                let paren = after.subrange(k + 1, after.len() as int);
                                if paren.len() >= 3 && paren[0] == '(' && paren[paren.len() as int
                                    - 1] == ')' {
                                    Some(
                                        QueryRequestView::CreateTable {
                                            schema,
                                            table,
                                            access,
                                            columns: paren.subrange(1, paren.len() as int - 1),
                                        },
                                    )
                                } else {
                                    None
                                }
                            },
                        }
                    }
                },
            }
        }
    } else {
        None
    }
}

/// Cells of one value group: `cell(, cell)*`. A cell is non-empty text
/// free of commas; quotes are kept as written.
pub open spec fn cells_of_group(s: Seq<char>) -> Option<Seq<Seq<char>>>
    decreases s.len(),
{
    let i = first_index(s, ',');
    if i < 0 {
        if s.len() > 0 {
            Some(seq![s])
        } else {
            None
        }
    } else {
        let cell = s.subrange(0, i);
        if cell.len() > 0 && i + 1 < s.len() && s[i + 1] == ' ' {
            match cells_of_group(s.subrange(i + 2, s.len() as int)) {
                None => None,
                Some(cs) => Some(seq![cell] + cs),
            }
        } else {
            None
        }
    }
}

/// Rows of an INSERT values text: `(cells)(, (cells))*`.
pub open spec fn rows_of_values(s: Seq<char>) -> Option<Seq<Seq<Seq<char>>>>
    decreases s.len(),
{
    if s.len() < 2 || s[0] != '(' {
        None
    } else {
        let k = first_index(s, ')');
        if k < 1 || k >= s.len() {
            None
        } else {
            match cells_of_group(s.subrange(1, k)) {
                None => None,
                Some(cs) => {
                    if k == s.len() - 1 {
                        Some(seq![cs])
                    } else {
                        let rest = s.subrange(k + 1, s.len() as int);
                        if rest.len() >= 2 && rest[0] == ',' && rest[1] == ' ' {
                            match rows_of_values(rest.subrange(2, rest.len() as int)) {
                                None => None,
                                Some(rs) => Some(seq![cs] + rs),
                            }
                        } else {
                            None
                        }
                    }
                },
            }
        }
    }
}

/// Splits one value group into its cells; `None` exactly where
/// [`cells_of_group`] rejects it.
pub fn parse_cells(s: &str) -> (r: Option<Vec<String>>)
    ensures
        match r {
            Some(v) => cells_of_group(s@) == Some(v.deep_view()),
            None => cells_of_group(s@) == None::<Seq<Seq<char>>>,
        },
    decreases s@.len(),
{
    proof {
        lemma_first_index_props(s@, ',');
    }
    let n = s.unicode_len();
    match find_char(s, ',') {
        None => {
            if n == 0 {
                None
            } else {
                let cell = substring_copy(s, 0, n);
                let mut v: Vec<String> = Vec::new();
                v.push(cell);
                proof {
                    assert(s@.subrange(0, n as int) =~= s@);
                    assert(v.deep_view() =~= seq![s@]);
                }
                Some(v)
            }
        },
        Some(i) => {
            if i == 0 || i + 1 >= n || s.get_char(i + 1) != ' ' {
                return None;
            }
            let cell = substring_copy(s, 0, i);
            let rest = substring_copy(s, i + 2, n);
            match parse_cells(rest.as_str()) {
                None => None,
                Some(cs) => {
                    let mut v: Vec<String> = Vec::new();
                    v.push(cell);
                    let mut tail = cs;
                    let ghost tail0 = tail.deep_view();
                    v.append(&mut tail);
                    proof {
                        assert(v.deep_view() =~= seq![s@.subrange(0, i as int)] + tail0);
                    }
                    Some(v)
                },
            }
        },
    }
}

/// Splits an INSERT values text into its rows of cells; `None` exactly
/// where [`rows_of_values`] rejects it.
pub fn parse_rows(s: &str) -> (r: Option<Vec<Vec<String>>>)
    ensures
        match r {
            Some(v) => rows_of_values(s@) == Some(v.deep_view()),
            None => rows_of_values(s@) == None::<Seq<Seq<Seq<char>>>>,
        },
    decreases s@.len(),
{
    proof {
        lemma_first_index_props(s@, ')');
    }
    let n = s.unicode_len();
    if n < 2 || s.get_char(0) != '(' {
        return None;
    }
    let k = match find_char(s, ')') {
        None => {
            return None;
        },
        Some(k) => k,
    };
    if k < 1 {
        return None;
    }
    let inner = substring_copy(s, 1, k);
    let cs = match parse_cells(inner.as_str()) {
        None => {
            return None;
        },
        Some(cs) => cs,
    };
    if k == n - 1 {
        let ghost cs0 = cs.deep_view();
        let mut v: Vec<Vec<String>> = Vec::new();
        v.push(cs);
        proof {
            assert(v.deep_view() =~= seq![cs0]);
        }
        return Some(v);
    }
    let rest = substring_copy(s, k + 1, n);
    let m = rest.as_str().unicode_len();
    if m < 2 || rest.as_str().get_char(0) != ',' || rest.as_str().get_char(1) != ' ' {
        return None;
    }
    let next = substring_copy(rest.as_str(), 2, m);
    match parse_rows(next.as_str()) {
        None => None,
        Some(rs) => {
            let ghost cs0 = cs.deep_view();
            let mut v: Vec<Vec<String>> = Vec::new();
            v.push(cs);
            let mut tail = rs;
            let ghost tail0 = tail.deep_view();
            v.append(&mut tail);
            proof {
                assert(v.deep_view() =~= seq![cs0] + tail0);
            }
            Some(v)
        },
    }
}

/// The rest of `s` after the prefix `p`, when `s` begins with `p`.
pub fn strip_prefix_copy(s: &str, p: &str) -> (r: Option<String>)
    ensures
        match r {
            Some(rest) => is_prefix(p@, s@) && rest@ == s@.subrange(
                p@.len() as int,
                s@.len() as int,
            ),
            None => !is_prefix(p@, s@),
        },
{
    if !has_prefix(s, p) {
        return None;
    }
    Some(substring_copy(s, p.unicode_len(), s.unicode_len()))
}

/// Splits `<schema>.<table>` at its first dot, checking both names.
fn parse_qualified(s: &str) -> (r: Option<(String, String)>)
    ensures
        match r {
            Some((schema, table)) => qualified_of(s@) == Some((schema@, table@)),
            None => qualified_of(s@) == None::<(Seq<char>, Seq<char>)>,
        },
{
    proof {
        lemma_first_index_props(s@, '.');
    }
    let i = match find_char(s, '.') {
        None => {
            return None;
        },
        Some(i) => i,
    };
    let n = s.unicode_len();
    let schema = substring_copy(s, 0, i);
    let table = substring_copy(s, i + 1, n);
    if crate::strutil::is_name(schema.as_str()) && crate::strutil::is_name(table.as_str()) {
        Some((schema, table))
    } else {
        None
    }
}

/// Reads `WHERE <column> = <value>` off `s`.
fn parse_where(s: &str) -> (r: Option<(String, String)>)
    ensures
        match r {
            Some((column, value)) => where_of(s@) == Some((column@, value@)),
            None => where_of(s@) == None::<(Seq<char>, Seq<char>)>,
        },
{
    let rem = match strip_prefix_copy(s, "WHERE ") {
        None => {
            return None;
        },
        Some(r) => r,
    };
    proof {
        lemma_first_index_props(rem@, ' ');
    }
    let i = match find_char(rem.as_str(), ' ') {
        None => {
            return None;
        },
        Some(i) => i,
    };
    let n = rem.as_str().unicode_len();
    let col = substring_copy(rem.as_str(), 0, i);
    let rest = substring_copy(rem.as_str(), i + 1, n);
    if !crate::strutil::is_name(col.as_str()) {
        return None;
    }
    let v = match strip_prefix_copy(rest.as_str(), "= ") {
        None => {
            return None;
        },
        Some(v) => v,
    };
    if v.as_str().is_empty() {
        return None;
    }
    Some((col, v))
}

/// Parses a query text under the grammar; `None` exactly where
/// [`query_of_text`] rejects it.
pub fn parse_query(s: &str) -> (r: Option<QueryRequest>)
    ensures
        match r {
            Some(q) => query_of_text(s@) == Some(q@),
            None => query_of_text(s@) == None::<QueryRequestView>,
        },
{
    if let Some(rest) = strip_prefix_copy(s, "SELECT * FROM ") {
        proof {
            lemma_first_index_props(rest@, ' ');
        }
        let n = rest.as_str().unicode_len();
        match find_char(rest.as_str(), ' ') {
            None => {
                match parse_qualified(rest.as_str()) {
                    None => None,
                    Some((schema, table)) => Some(
                        QueryRequest::SelectAll { schema, table, clause: String::new() },
                    ),
                }
            },
            Some(j) => {
                let clause = substring_copy(rest.as_str(), j + 1, n);
                if clause.as_str().is_empty() {
                    return None;
                }
                let qual = substring_copy(rest.as_str(), 0, j);
                match parse_qualified(qual.as_str()) {
                    None => None,
                    Some((schema, table)) => Some(
                        QueryRequest::SelectAll { schema, table, clause },
                    ),
                }
            },
        }
    } else if let Some(rest) = strip_prefix_copy(s, "SELECT ") {
        proof {
            lemma_first_index_props(rest@, ' ');
        }
        let n = rest.as_str().unicode_len();
        match find_char(rest.as_str(), ' ') {
            None => {
                if !rest.as_str().is_empty() && crate::strutil::all_digits(rest.as_str()) {
                    Some(QueryRequest::SelectLiteral { value: rest })
                } else {
                    None
                }
            },
            Some(j) => {
                let value = substring_copy(rest.as_str(), 0, j);
                let rem = substring_copy(rest.as_str(), j + 1, n);
                if value.as_str().is_empty() || !crate::strutil::all_digits(value.as_str()) {
                    return None;
                }
                match strip_prefix_copy(rem.as_str(), "as ") {
                    None => None,
                    Some(alias) => {
                        if crate::strutil::is_name(alias.as_str()) {
                            Some(QueryRequest::SelectLiteral { value })
                        } else {
                            None
                        }
                    },
                }
            },
        }
    } else if let Some(rest) = strip_prefix_copy(s, "INSERT INTO ") {
        proof {
            lemma_first_index_props(rest@, ' ');
        }
        let n = rest.as_str().unicode_len();
        let j = match find_char(rest.as_str(), ' ') {
            None => {
                return None;
            },
            Some(j) => j,
        };
        let qual = substring_copy(rest.as_str(), 0, j);
        let (schema, table) = match parse_qualified(qual.as_str()) {
            None => {
                return None;
            },
            Some(p) => p,
        };
        let after = substring_copy(rest.as_str(), j + 1, n);
        proof {
            lemma_first_index_props(after@, ')');
        }
        let k = match find_char(after.as_str(), ')') {
            None => {
                return None;
            },
            Some(k) => k,
        };
        if !has_prefix(after.as_str(), "(") || k < 1 {
            return None;
        }
        let fields = substring_copy(after.as_str(), 1, k);
        let tail = substring_copy(after.as_str(), k, after.as_str().unicode_len());
        let values = match strip_prefix_copy(tail.as_str(), ") VALUES ") {
            None => {
                return None;
            },
            Some(v) => v,
        };
        if fields.as_str().is_empty() || values.as_str().is_empty() {
            return None;
        }
        Some(QueryRequest::Insert { schema, table, fields, values })
    } else if let Some(rest) = strip_prefix_copy(s, "DELETE FROM ") {
        proof {
            lemma_first_index_props(rest@, ' ');
        }
        let n = rest.as_str().unicode_len();
        let j = match find_char(rest.as_str(), ' ') {
            None => {
                return None;
            },
            Some(j) => j,
        };
        let qual = substring_copy(rest.as_str(), 0, j);
        let (schema, table) = match parse_qualified(qual.as_str()) {
            None => {
                return None;
            },
            Some(p) => p,
        };
        let clause = substring_copy(rest.as_str(), j + 1, n);
        match parse_where(clause.as_str()) {
            None => None,
            Some((column, value)) => Some(
                QueryRequest::DeleteFrom { schema, table, column, value },
            ),
        }
    } else if let Some(rest) = strip_prefix_copy(s, "CREATE TABLE ") {
        proof {
            lemma_first_index_props(rest@, ' ');
        }
        let n = rest.as_str().unicode_len();
        let j = match find_char(rest.as_str(), ' ') {
            None => {
                return None;
            },
            Some(j) => j,
        };
        let qual = substring_copy(rest.as_str(), 0, j);
        let (schema, table) = match parse_qualified(qual.as_str()) {
            None => {
                return None;
            },
            Some(p) => p,
        };
        let after = substring_copy(rest.as_str(), j + 1, n);
        proof {
            lemma_first_index_props(after@, ' ');
        }
        let na = after.as_str().unicode_len();
        let k = match find_char(after.as_str(), ' ') {
            None => {
                return None;
            },
            Some(k) => k,
        };
        let word = substring_copy(after.as_str(), 0, k);
        let access = match parse_access(word.as_str()) {
            None => {
                return None;
            },
            Some(a) => a,
        };
        let paren = substring_copy(after.as_str(), k + 1, na);
        let m = paren.as_str().unicode_len();
        if m < 3 {
            return None;
        }
        if paren.as_str().get_char(0) != '(' || paren.as_str().get_char(m - 1) != ')' {
            return None;
        }
        let columns = substring_copy(paren.as_str(), 1, m - 1);
        Some(QueryRequest::CreateTable { schema, table, access, columns })
    } else {
        None
    }
}

} // verus!
