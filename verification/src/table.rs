use vstd::prelude::*;

use crate::errors::SxtError;
use crate::identity::{line_clean, Keypair, KeypairView};
use crate::query::{
    access_of_word, access_text, access_word, qualified_of, query_of_text, where_of,
    QueryRequestView,
};

pub use crate::query::TableAccessType;
use crate::service::{execute_transition, QueryOutcome, QueryOutcomeView, ServiceModel};
use crate::session::{Session, SessionView};
use crate::strutil::{
    first_index, is_name, is_prefix, lemma_first_index_concat, lemma_first_index_absent,
    lemma_name_char_free, lemma_no_char_concat, lemma_prefix_char, name_ok, no_char,
};

verus! {

/// Mathematical image of a [`Table`].
pub struct TableView {
    pub schema_name: Seq<char>,
    pub table_name: Seq<char>,
    pub keypair: KeypairView,
    pub access: TableAccessType,
    pub session: SessionView,
}

/// The keypair a table falls back to when none is handed in: derived from
/// its qualified name, so each table gets its own pair.
pub open spec fn derived_table_keypair(schema: Seq<char>, table: Seq<char>) -> KeypairView {
    KeypairView {
        private_key: "sk-"@ + schema + "."@ + table,
        public_key: "pk-"@ + schema + "."@ + table,
    }
}

/// A local descriptor of a remote table: its qualified name, its declared
/// access, and the session its operations run under. Constructing one has
/// no remote effect, and the descriptor tracks no remote state: each
/// operation is an independent call gated by the service's actual state.
pub struct Table {
    pub schema_name: String,
    pub table_name: String,
    pub table_keypair: Keypair,
    pub access: TableAccessType,
    pub session: Session,
}

impl View for Table {
    type V = TableView;

    open spec fn view(&self) -> TableView {
        TableView {
            schema_name: self.schema_name@,
            table_name: self.table_name@,
            keypair: self.table_keypair@,
            access: self.access,
            session: self.session@,
        }
    }
}

/// The DDL text `create` sends, the declared access carried with it.
pub open spec fn create_sql(
    schema: Seq<char>,
    table: Seq<char>,
    access: TableAccessType,
    columns: Seq<char>,
) -> Seq<char> {
    "CREATE TABLE "@ + schema + "."@ + table + " "@ + access_word(access) + " ("@ + columns + ")"@
}

/// The text `insert` sends.
pub open spec fn insert_sql(
    schema: Seq<char>,
    table: Seq<char>,
    fields: Seq<char>,
    values: Seq<char>,
) -> Seq<char> {
    "INSERT INTO "@ + schema + "."@ + table + " ("@ + fields + ") VALUES "@ + values
}

/// The text `select` sends.
pub open spec fn select_sql(
    schema: Seq<char>,
    table: Seq<char>,
    projection: Seq<char>,
    clause: Seq<char>,
) -> Seq<char> {
    "SELECT "@ + projection + " FROM "@ + schema + "."@ + table + if clause.len() > 0 {
        " "@ + clause
    } else {
        Seq::<char>::empty()
    }
}

/// The text `delete` sends.
pub open spec fn delete_sql(schema: Seq<char>, table: Seq<char>, clause: Seq<char>) -> Seq<char> {
    "DELETE FROM "@ + schema + "."@ + table + " "@ + clause
}

/// The qualified-name part of a composed text splits back into its names.
proof fn lemma_qualified_split(schema: Seq<char>, table: Seq<char>, v: Seq<char>)
    requires
        name_ok(schema),
        name_ok(table),
        v.len() > 0,
        v[0] == ' ',
    ensures
        ({
            let u = schema + "."@ + table;
            let rest = u + v;
            first_index(rest, ' ') == u.len() && rest.subrange(0, u.len() as int) == u
                && rest.subrange(u.len() as int + 1, rest.len() as int) == v.subrange(
                1,
                v.len() as int,
            ) && qualified_of(u) == Some((schema, table))
        }),
{
    reveal_strlit(".");
    let u = schema + "."@ + table;
    let rest = u + v;
    lemma_name_char_free(schema);
    lemma_name_char_free(table);
    assert(no_char("."@, ' '));
    lemma_no_char_concat(schema, "."@, ' ');
    lemma_no_char_concat(schema + "."@, table, ' ');
    lemma_first_index_concat(u, v, ' ');
    assert(rest.subrange(0, u.len() as int) =~= u);
    assert(rest.subrange(u.len() as int + 1, rest.len() as int) =~= v.subrange(1, v.len() as int));
    assert(no_char(schema, '.'));
    assert(("."@ + table).len() > 0);
    assert(("."@ + table)[0] == '.');
    lemma_first_index_concat(schema, "."@ + table, '.');
    assert(u =~= schema + ("."@ + table));
    assert(first_index(u, '.') == schema.len());
    assert(u.subrange(0, schema.len() as int) =~= schema);
    assert(u.subrange(schema.len() as int + 1, u.len() as int) =~= table);
}

/// Whatever its arguments, a composed creation text parses to a
/// `CreateTable` request or not at all.
pub proof fn lemma_create_sql_branch(
    schema: Seq<char>,
    table: Seq<char>,
    access: TableAccessType,
    columns: Seq<char>,
)
    ensures
        match query_of_text(create_sql(schema, table, access, columns)) {
            None => true,
            Some(q) => q is CreateTable,
        },
{
    let s = create_sql(schema, table, access, columns);
    reveal_strlit("CREATE TABLE ");
    reveal_strlit("SELECT * FROM ");
    reveal_strlit("SELECT ");
    reveal_strlit("INSERT INTO ");
    reveal_strlit("DELETE FROM ");
    assert(s[0] == 'C');
    assert(!is_prefix("SELECT * FROM "@, s)) by {
        if is_prefix("SELECT * FROM "@, s) {
            lemma_prefix_char("SELECT * FROM "@, s, 0);
        }
    }
    assert(!is_prefix("SELECT "@, s)) by {
        if is_prefix("SELECT "@, s) {
            lemma_prefix_char("SELECT "@, s, 0);
        }
    }
    assert(!is_prefix("INSERT INTO "@, s)) by {
        if is_prefix("INSERT INTO "@, s) {
            lemma_prefix_char("INSERT INTO "@, s, 0);
        }
    }
    assert(!is_prefix("DELETE FROM "@, s)) by {
        if is_prefix("DELETE FROM "@, s) {
            lemma_prefix_char("DELETE FROM "@, s, 0);
        }
    }
}

/// Whatever its arguments, a composed insert text parses to an `Insert`
/// request or not at all.
pub proof fn lemma_insert_sql_branch(
    schema: Seq<char>,
    table: Seq<char>,
    fields: Seq<char>,
    values: Seq<char>,
)
    ensures
        match query_of_text(insert_sql(schema, table, fields, values)) {
            None => true,
            Some(q) => q is Insert,
        },
{
    let s = insert_sql(schema, table, fields, values);
    reveal_strlit("SELECT * FROM ");
    reveal_strlit("SELECT ");
    reveal_strlit("INSERT INTO ");
    assert(s[0] == 'I');
    assert(!is_prefix("SELECT * FROM "@, s)) by {
        if is_prefix("SELECT * FROM "@, s) {
            lemma_prefix_char("SELECT * FROM "@, s, 0);
        }
    }
    assert(!is_prefix("SELECT "@, s)) by {
        if is_prefix("SELECT "@, s) {
            lemma_prefix_char("SELECT "@, s, 0);
        }
    }
    reveal_strlit("DELETE FROM ");
    reveal_strlit("CREATE TABLE ");
    assert(!is_prefix("DELETE FROM "@, s)) by {
        if is_prefix("DELETE FROM "@, s) {
            lemma_prefix_char("DELETE FROM "@, s, 0);
        }
    }
    assert(!is_prefix("CREATE TABLE "@, s)) by {
        if is_prefix("CREATE TABLE "@, s) {
            lemma_prefix_char("CREATE TABLE "@, s, 0);
        }
    }
}

/// Whatever its arguments, a composed select text parses to a request that
/// returns rows — `SelectAll` or `SelectLiteral` — or not at all.
pub proof fn lemma_select_sql_branch(
    schema: Seq<char>,
    table: Seq<char>,
    projection: Seq<char>,
    clause: Seq<char>,
)
    ensures
        match query_of_text(select_sql(schema, table, projection, clause)) {
            None => true,
            Some(q) => q is SelectAll || q is SelectLiteral,
        },
{
    let s = select_sql(schema, table, projection, clause);
    reveal_strlit("SELECT ");
    if !is_prefix("SELECT * FROM "@, s) {
        assert(is_prefix("SELECT "@, s)) by {
            assert(s.subrange(0, "SELECT "@.len() as int) =~= "SELECT "@);
        }
    }
}

/// Whatever its arguments, a composed delete text parses to a
/// `DeleteFrom` request or not at all.
pub proof fn lemma_delete_sql_branch(schema: Seq<char>, table: Seq<char>, clause: Seq<char>)
    ensures
        match query_of_text(delete_sql(schema, table, clause)) {
            None => true,
            Some(q) => q is DeleteFrom,
        },
{
    let s = delete_sql(schema, table, clause);
    reveal_strlit("SELECT * FROM ");
    reveal_strlit("SELECT ");
    reveal_strlit("INSERT INTO ");
    reveal_strlit("DELETE FROM ");
    assert(s[0] == 'D');
    assert(!is_prefix("SELECT * FROM "@, s)) by {
        if is_prefix("SELECT * FROM "@, s) {
            lemma_prefix_char("SELECT * FROM "@, s, 0);
        }
    }
    assert(!is_prefix("SELECT "@, s)) by {
        if is_prefix("SELECT "@, s) {
            lemma_prefix_char("SELECT "@, s, 0);
        }
    }
    assert(!is_prefix("INSERT INTO "@, s)) by {
        if is_prefix("INSERT INTO "@, s) {
            lemma_prefix_char("INSERT INTO "@, s, 0);
        }
    }
    reveal_strlit("CREATE TABLE ");
    assert(!is_prefix("CREATE TABLE "@, s)) by {
        if is_prefix("CREATE TABLE "@, s) {
            lemma_prefix_char("CREATE TABLE "@, s, 0);
        }
    }
}

/// The round trip of table creation: for usable names and a non-empty
/// column text, the composed DDL parses back to exactly its parts.
pub proof fn lemma_create_sql_parses(
    schema: Seq<char>,
    table: Seq<char>,
    access: TableAccessType,
    columns: Seq<char>,
)
    requires
        name_ok(schema),
        name_ok(table),
        columns.len() > 0,
    ensures
        query_of_text(create_sql(schema, table, access, columns)) == Some(
            QueryRequestView::CreateTable { schema, table, access, columns },
        ),
{
    let s = create_sql(schema, table, access, columns);
    let p = "CREATE TABLE "@;
    reveal_strlit("CREATE TABLE ");
    reveal_strlit("SELECT * FROM ");
    reveal_strlit("SELECT ");
    reveal_strlit("INSERT INTO ");
    reveal_strlit("DELETE FROM ");
    reveal_strlit(" (");
    reveal_strlit("(");
    reveal_strlit(")");
    assert(s[0] == 'C');
    assert(!is_prefix("SELECT * FROM "@, s)) by {
        if is_prefix("SELECT * FROM "@, s) {
            lemma_prefix_char("SELECT * FROM "@, s, 0);
        }
    }
    assert(!is_prefix("SELECT "@, s)) by {
        if is_prefix("SELECT "@, s) {
            lemma_prefix_char("SELECT "@, s, 0);
        }
    }
    assert(!is_prefix("INSERT INTO "@, s)) by {
        if is_prefix("INSERT INTO "@, s) {
            lemma_prefix_char("INSERT INTO "@, s, 0);
        }
    }
    assert(!is_prefix("DELETE FROM "@, s)) by {
        if is_prefix("DELETE FROM "@, s) {
            lemma_prefix_char("DELETE FROM "@, s, 0);
        }
    }
    reveal_strlit(" ");
    reveal_strlit("PUBLIC_READ");
    reveal_strlit("PUBLIC_WRITE");
    reveal_strlit("PRIVATE");
    let w = access_word(access);
    let u = schema + "."@ + table;
    let v = " "@ + w + " ("@ + columns + ")"@;
    assert(s =~= p + (u + v));
    assert(is_prefix(p, s)) by {
        assert(s.subrange(0, p.len() as int) =~= p);
    }
    let rest = s.subrange(p.len() as int, s.len() as int);
    assert(rest =~= u + v);
    assert(v[0] == ' ');
    lemma_qualified_split(schema, table, v);
    let j = first_index(rest, ' ');
    assert(j == u.len());
    assert(rest.subrange(0, j) == u);
    let after = rest.subrange(j + 1, rest.len() as int);
    assert(after == v.subrange(1, v.len() as int));
    let tail2 = " ("@ + columns + ")"@;
    assert(after =~= w + tail2);
    assert(no_char(w, ' ')) by {
        match access {
            TableAccessType::PublicRead => {
                assert(no_char("PUBLIC_READ"@, ' '));
            },
            TableAccessType::PublicWrite => {
                assert(no_char("PUBLIC_WRITE"@, ' '));
            },
            TableAccessType::Private => {
                assert(no_char("PRIVATE"@, ' '));
            },
        }
    }
    assert(tail2[0] == ' ');
    lemma_first_index_concat(w, tail2, ' ');
    let k = first_index(after, ' ');
    assert(k == w.len());
    assert(after.subrange(0, k) =~= w);
    assert(access_of_word(w) == Some(access));
    let paren = after.subrange(k + 1, after.len() as int);
    assert(paren =~= "("@ + columns + ")"@);
    assert(paren.len() == columns.len() + 2);
    assert(paren[0] == '(');
    assert(paren[paren.len() as int - 1] == ')');
    assert(paren.subrange(1, paren.len() as int - 1) =~= columns);
}

/// The round trip of an insert: for usable names, a non-empty field list
/// free of closing parentheses, and a non-empty values text, the composed
/// text parses back to exactly its parts.
pub proof fn lemma_insert_sql_parses(
    schema: Seq<char>,
    table: Seq<char>,
    fields: Seq<char>,
    values: Seq<char>,
)
    requires
        name_ok(schema),
        name_ok(table),
        fields.len() > 0,
        no_char(fields, ')'),
        values.len() > 0,
    ensures
        query_of_text(insert_sql(schema, table, fields, values)) == Some(
            QueryRequestView::Insert { schema, table, fields, values },
        ),
{
    let s = insert_sql(schema, table, fields, values);
    let p = "INSERT INTO "@;
    reveal_strlit("INSERT INTO ");
    reveal_strlit("SELECT * FROM ");
    reveal_strlit("SELECT ");
    reveal_strlit(" (");
    reveal_strlit("(");
    reveal_strlit(") VALUES ");
    assert(s[0] == 'I');
    assert(!is_prefix("SELECT * FROM "@, s)) by {
        if is_prefix("SELECT * FROM "@, s) {
            lemma_prefix_char("SELECT * FROM "@, s, 0);
        }
    }
    assert(!is_prefix("SELECT "@, s)) by {
        if is_prefix("SELECT "@, s) {
            lemma_prefix_char("SELECT "@, s, 0);
        }
    }
    let u = schema + "."@ + table;
    let v = " ("@ + fields + ") VALUES "@ + values;
    assert(s =~= p + (u + v));
    assert(is_prefix(p, s)) by {
        assert(s.subrange(0, p.len() as int) =~= p);
    }
    let rest = s.subrange(p.len() as int, s.len() as int);
    assert(rest =~= u + v);
    assert(v[0] == ' ');
    lemma_qualified_split(schema, table, v);
    let j = first_index(rest, ' ');
    assert(j == u.len());
    assert(rest.subrange(0, j) == u);
    let after = rest.subrange(j + 1, rest.len() as int);
    assert(after == v.subrange(1, v.len() as int));
    let tail2 = ") VALUES "@ + values;
    assert(after =~= ("("@ + fields) + tail2);
    assert(no_char("("@, ')'));
    lemma_no_char_concat("("@, fields, ')');
    assert(tail2[0] == ')');
    lemma_first_index_concat("("@ + fields, tail2, ')');
    let k = first_index(after, ')');
    assert(k == 1 + fields.len());
    assert(is_prefix("("@, after)) by {
        assert(after.subrange(0, 1) =~= "("@);
    }
    assert(after.subrange(1, k) =~= fields);
    let tail = after.subrange(k, after.len() as int);
    assert(tail =~= tail2);
    assert(is_prefix(") VALUES "@, tail)) by {
        assert(tail.subrange(0, ") VALUES "@.len() as int) =~= ") VALUES "@);
    }
    assert(tail.subrange(") VALUES "@.len() as int, tail.len() as int) =~= values);
}

/// The round trip of a star select: for usable names, the composed text
/// parses back to a `SelectAll` of exactly its parts, with the trailing
/// clause carried unchanged.
pub proof fn lemma_select_sql_parses(schema: Seq<char>, table: Seq<char>, clause: Seq<char>)
    requires
        name_ok(schema),
        name_ok(table),
    ensures
        query_of_text(select_sql(schema, table, "*"@, clause)) == Some(
            QueryRequestView::SelectAll { schema, table, clause },
        ),
{
    let s = select_sql(schema, table, "*"@, clause);
    let p = "SELECT * FROM "@;
    reveal_strlit("SELECT ");
    reveal_strlit("*");
    reveal_strlit(" FROM ");
    reveal_strlit("SELECT * FROM ");
    reveal_strlit(" ");
    let u = schema + "."@ + table;
    if clause.len() > 0 {
        assert(s =~= p + (u + (" "@ + clause)));
        assert(is_prefix(p, s)) by {
            assert(s.subrange(0, p.len() as int) =~= p);
        }
        let rest = s.subrange(p.len() as int, s.len() as int);
        assert(rest =~= u + (" "@ + clause));
        assert((" "@ + clause)[0] == ' ');
        lemma_qualified_split(schema, table, " "@ + clause);
        let j = first_index(rest, ' ');
        assert(j == u.len());
        assert(rest.subrange(0, j) == u);
        let cl = rest.subrange(j + 1, rest.len() as int);
        assert(cl == (" "@ + clause).subrange(1, (" "@ + clause).len() as int));
        assert(cl =~= clause);
    } else {
        assert(s =~= p + u);
        assert(is_prefix(p, s)) by {
            assert(s.subrange(0, p.len() as int) =~= p);
        }
        let rest = s.subrange(p.len() as int, s.len() as int);
        assert(rest =~= u);
        lemma_name_char_free(schema);
        lemma_name_char_free(table);
        assert(no_char("."@, ' ')) by {
            reveal_strlit(".");
        }
        lemma_no_char_concat(schema, "."@, ' ');
        lemma_no_char_concat(schema + "."@, table, ' ');
        lemma_first_index_absent(rest, ' ');
        lemma_qualified_split(schema, table, " "@);
        assert(qualified_of(u) == Some((schema, table)));
    }
}

/// The round trip of a delete: for usable names and a clause that reads as
/// `WHERE <column> = <value>`, the composed text parses back to a
/// `DeleteFrom` of exactly its parts.
pub proof fn lemma_delete_sql_parses(
    schema: Seq<char>,
    table: Seq<char>,
    clause: Seq<char>,
    column: Seq<char>,
    value: Seq<char>,
)
    requires
        name_ok(schema),
        name_ok(table),
        where_of(clause) == Some((column, value)),
    ensures
        query_of_text(delete_sql(schema, table, clause)) == Some(
            QueryRequestView::DeleteFrom { schema, table, column, value },
        ),
{
    let s = delete_sql(schema, table, clause);
    let p = "DELETE FROM "@;
    reveal_strlit("DELETE FROM ");
    reveal_strlit("SELECT * FROM ");
    reveal_strlit("SELECT ");
    reveal_strlit("INSERT INTO ");
    reveal_strlit(" ");
    assert(s[0] == 'D');
    assert(!is_prefix("SELECT * FROM "@, s)) by {
        if is_prefix("SELECT * FROM "@, s) {
            lemma_prefix_char("SELECT * FROM "@, s, 0);
        }
    }
    assert(!is_prefix("SELECT "@, s)) by {
        if is_prefix("SELECT "@, s) {
            lemma_prefix_char("SELECT "@, s, 0);
        }
    }
    assert(!is_prefix("INSERT INTO "@, s)) by {
        if is_prefix("INSERT INTO "@, s) {
            lemma_prefix_char("INSERT INTO "@, s, 0);
        }
    }
    let u = schema + "."@ + table;
    let v = " "@ + clause;
    assert(s =~= p + (u + v));
    assert(is_prefix(p, s)) by {
        assert(s.subrange(0, p.len() as int) =~= p);
    }
    let rest = s.subrange(p.len() as int, s.len() as int);
    assert(rest =~= u + v);
    assert(v[0] == ' ');
    lemma_qualified_split(schema, table, v);
    let j = first_index(rest, ' ');
    assert(j == u.len());
    assert(rest.subrange(0, j) == u);
    let cl = rest.subrange(j + 1, rest.len() as int);
    assert(cl == v.subrange(1, v.len() as int));
    assert(cl =~= clause);
}

impl Table {
    /// A local table descriptor; no remote call is made. Fails exactly
    /// when either name is unusable as a schema or table name, or a
    /// handed-in keypair does not fit on credential lines. When no keypair
    /// is handed in, a fresh one is derived for the table.
    pub fn new(
        schema_name: String,
        table_name: String,
        table_keypair: Option<Keypair>,
        session: Session,
        access: TableAccessType,
    ) -> (r: Result<Table, SxtError>)
        ensures
            match r {
                Ok(t) => name_ok(schema_name@) && name_ok(table_name@) && (match table_keypair {
                    Some(kp) => kp@.wf(),
                    None => true,
                }) && t@.keypair.wf() && t@ == (TableView {
                    schema_name: schema_name@,
                    table_name: table_name@,
                    keypair: match table_keypair {
                        Some(kp) => kp@,
                        None => derived_table_keypair(schema_name@, table_name@),
                    },
                    access,
                    session: session@,
                }),
                Err(e) => e == SxtError::ConfigError && !(name_ok(schema_name@) && name_ok(
                    table_name@,
                ) && (match table_keypair {
                    Some(kp) => kp@.wf(),
                    None => true,
                })),
            },
    {
        if !is_name(schema_name.as_str()) || !is_name(table_name.as_str()) {
            return Err(SxtError::ConfigError);
        }
        let keypair = match table_keypair {
            Some(kp) => {
                if !line_clean(kp.private_key.as_str()) || !line_clean(kp.public_key.as_str()) {
                    return Err(SxtError::ConfigError);
                }
                kp
            },
            None => {
                let mut sk = String::from_str("sk-");
                sk.append(schema_name.as_str());
                sk.append(".");
                sk.append(table_name.as_str());
                let mut pk = String::from_str("pk-");
                pk.append(schema_name.as_str());
                pk.append(".");
                pk.append(table_name.as_str());
                proof {
                    reveal_strlit("sk-");
                    reveal_strlit("pk-");
                    reveal_strlit(".");
                    lemma_name_char_free(schema_name@);
                    lemma_name_char_free(table_name@);
                    assert(sk@ =~= derived_table_keypair(schema_name@, table_name@).private_key);
                    assert(pk@ =~= derived_table_keypair(schema_name@, table_name@).public_key);
                    assert(no_char("sk-"@, '\n'));
                    assert(no_char("pk-"@, '\n'));
                    assert(no_char("."@, '\n'));
                    lemma_no_char_concat("sk-"@, schema_name@, '\n');
                    lemma_no_char_concat("sk-"@ + schema_name@, "."@, '\n');
                    lemma_no_char_concat("sk-"@ + schema_name@ + "."@, table_name@, '\n');
                    lemma_no_char_concat("pk-"@, schema_name@, '\n');
                    lemma_no_char_concat("pk-"@ + schema_name@, "."@, '\n');
                    lemma_no_char_concat("pk-"@ + schema_name@ + "."@, table_name@, '\n');
                }
                Keypair { private_key: sk, public_key: pk }
            },
        };
        Ok(Table { schema_name, table_name, table_keypair: keypair, access, session })
    }

    /// Issues the creation DDL for this table with the given column text,
    /// the declared access carried on the wire with it. Succeeds with a
    /// bare acknowledgement; a table of the same qualified name fails with
    /// `AlreadyExists`, exactly as the composed text's parse and
    /// [`execute_transition`] say.
    pub fn create(&self, schema_def: &str, service: &mut ServiceModel) -> (r: Result<(), SxtError>)
        ensures
            ({
                let sql = create_sql(self@.schema_name, self@.table_name, self@.access, schema_def@);
                match query_of_text(sql) {
                    None => r == Err::<(), SxtError>(SxtError::QuerySyntaxError)
                        && final(service)@ == old(service)@,
                    Some(q) => {
                        let (s1, rr) = execute_transition(
                            old(service)@,
                            self@.session.access_token,
                            q,
                        );
                        final(service)@ == s1 && match r {
                            Ok(()) => rr is Ok,
                            Err(e) => rr == Err::<QueryOutcomeView, SxtError>(e),
                        }
                    },
                }
            }),
    {
        let mut sql = String::from_str("CREATE TABLE ");
        sql.append(self.schema_name.as_str());
        sql.append(".");
        sql.append(self.table_name.as_str());
        sql.append(" ");
        sql.append(access_text(self.access));
        sql.append(" (");
        sql.append(schema_def);
        sql.append(")");
        proof {
            assert(sql@ =~= create_sql(
                self@.schema_name,
                self@.table_name,
                self@.access,
                schema_def@,
            ));
            lemma_create_sql_branch(self@.schema_name, self@.table_name, self@.access, schema_def@);
        }
        match self.session.execute_query(sql.as_str(), service) {
            Ok(QueryOutcome::Ack) => Ok(()),
            Ok(QueryOutcome::Rows(_)) => {
                proof {
                    assert(false);
                }
                Err(SxtError::NetworkError)
            },
            Ok(QueryOutcome::Affected(_)) => {
                proof {
                    assert(false);
                }
                Err(SxtError::NetworkError)
            },
            Err(e) => Err(e),
        }
    }

    /// Inserts caller-composed value rows under caller-composed field
    /// names; no client-side schema validation is done, and a malformed
    /// fragment surfaces as the service's `QuerySyntaxError`. On success
    /// returns how many rows were inserted.
    pub fn insert(&self, fields: &str, values: &str, service: &mut ServiceModel) -> (r: Result<
        usize,
        SxtError,
    >)
        ensures
            ({
                let sql = insert_sql(self@.schema_name, self@.table_name, fields@, values@);
                match query_of_text(sql) {
                    None => r == Err::<usize, SxtError>(SxtError::QuerySyntaxError)
                        && final(service)@ == old(service)@,
                    Some(q) => {
                        let (s1, rr) = execute_transition(
                            old(service)@,
                            self@.session.access_token,
                            q,
                        );
                        final(service)@ == s1 && match r {
                            Ok(n) => rr == Ok::<QueryOutcomeView, SxtError>(
                                QueryOutcomeView::Affected(n as nat),
                            ),
                            Err(e) => rr == Err::<QueryOutcomeView, SxtError>(e),
                        }
                    },
                }
            }),
    {
        let mut sql = String::from_str("INSERT INTO ");
        sql.append(self.schema_name.as_str());
        sql.append(".");
        sql.append(self.table_name.as_str());
        sql.append(" (");
        sql.append(fields);
        sql.append(") VALUES ");
        sql.append(values);
        proof {
            assert(sql@ =~= insert_sql(self@.schema_name, self@.table_name, fields@, values@));
            lemma_insert_sql_branch(self@.schema_name, self@.table_name, fields@, values@);
        }
        match self.session.execute_query(sql.as_str(), service) {
            Ok(QueryOutcome::Affected(n)) => Ok(n),
            Ok(QueryOutcome::Rows(_)) => {
                proof {
                    assert(false);
                }
                Err(SxtError::NetworkError)
            },
            Ok(QueryOutcome::Ack) => {
                proof {
                    assert(false);
                }
                Err(SxtError::NetworkError)
            },
            Err(e) => Err(e),
        }
    }

    /// Selects rows with a caller-composed projection and trailing clause.
    /// The rows come back exactly as the service stores them — in an order
    /// the service alone determines, never reordered here.
    pub fn select(&self, projection: &str, clause: &str, service: &mut ServiceModel) -> (r: Result<
        Vec<Vec<String>>,
        SxtError,
    >)
        ensures
            ({
                let sql = select_sql(self@.schema_name, self@.table_name, projection@, clause@);
                match query_of_text(sql) {
                    None => r == Err::<Vec<Vec<String>>, SxtError>(SxtError::QuerySyntaxError)
                        && final(service)@ == old(service)@,
                    Some(q) => {
                        let (s1, rr) = execute_transition(
                            old(service)@,
                            self@.session.access_token,
                            q,
                        );
                        final(service)@ == s1 && match r {
                            Ok(rows) => rr == Ok::<QueryOutcomeView, SxtError>(
                                QueryOutcomeView::Rows(rows.deep_view()),
                            ),
                            Err(e) => rr == Err::<QueryOutcomeView, SxtError>(e),
                        }
                    },
                }
            }),
    {
        let mut sql = String::from_str("SELECT ");
        sql.append(projection);
        sql.append(" FROM ");
        sql.append(self.schema_name.as_str());
        sql.append(".");
        sql.append(self.table_name.as_str());
        if !clause.is_empty() {
            sql.append(" ");
            sql.append(clause);
        }
        proof {
            assert(sql@ =~= select_sql(self@.schema_name, self@.table_name, projection@, clause@));
            lemma_select_sql_branch(self@.schema_name, self@.table_name, projection@, clause@);
        }
        match self.session.execute_query(sql.as_str(), service) {
            Ok(QueryOutcome::Rows(rows)) => Ok(rows),
            Ok(QueryOutcome::Affected(_)) => {
                proof {
                    assert(false);
                }
                Err(SxtError::NetworkError)
            },
            Ok(QueryOutcome::Ack) => {
                proof {
                    assert(false);
                }
                Err(SxtError::NetworkError)
            },
            Err(e) => Err(e),
        }
    }

    /// Deletes the rows answering a caller-composed `WHERE` clause, and
    /// returns how many went. An empty clause would silently empty the
    /// whole table, so it is refused with `MissingPredicate` before
    /// anything is sent: the service is not touched.
    pub fn delete(&self, clause: &str, service: &mut ServiceModel) -> (r: Result<usize, SxtError>)
        ensures
            clause@.len() == 0 ==> r == Err::<usize, SxtError>(SxtError::MissingPredicate)
                && final(service)@ == old(service)@,
            clause@.len() > 0 ==> ({
                let sql = delete_sql(self@.schema_name, self@.table_name, clause@);
                match query_of_text(sql) {
                    None => r == Err::<usize, SxtError>(SxtError::QuerySyntaxError)
                        && final(service)@ == old(service)@,
                    Some(q) => {
                        let (s1, rr) = execute_transition(
                            old(service)@,
                            self@.session.access_token,
                            q,
                        );
                        final(service)@ == s1 && match r {
                            Ok(n) => rr == Ok::<QueryOutcomeView, SxtError>(
                                QueryOutcomeView::Affected(n as nat),
                            ),
                            Err(e) => rr == Err::<QueryOutcomeView, SxtError>(e),
                        }
                    },
                }
            }),
    {
        if clause.is_empty() {
            return Err(SxtError::MissingPredicate);
        }
        let mut sql = String::from_str("DELETE FROM ");
        sql.append(self.schema_name.as_str());
        sql.append(".");
        sql.append(self.table_name.as_str());
        sql.append(" ");
        sql.append(clause);
        proof {
            assert(sql@ =~= delete_sql(self@.schema_name, self@.table_name, clause@));
            lemma_delete_sql_branch(self@.schema_name, self@.table_name, clause@);
        }
        match self.session.execute_query(sql.as_str(), service) {
            Ok(QueryOutcome::Affected(n)) => Ok(n),
            Ok(QueryOutcome::Rows(_)) => {
                proof {
                    assert(false);
                }
                Err(SxtError::NetworkError)
            },
            Ok(QueryOutcome::Ack) => {
                proof {
                    assert(false);
                }
                Err(SxtError::NetworkError)
            },
            Err(e) => Err(e),
        }
    }
}

} // verus!
