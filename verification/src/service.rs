use vstd::prelude::*;

use crate::errors::{AuthFailure, SxtError};
use crate::identity::Identity;
use crate::query::{rows_of_values, QueryRequest, TableAccessType};
use crate::strutil::str_eq;

verus! {

/// Mathematical image of a [`Subscription`].
#[verifier::ext_equal]
pub struct SubscriptionView {
    pub subscription_id: Seq<char>,
    pub public_key: Seq<char>,
}

/// A registration the service knows: a subscription id and the public key
/// it expects proofs of possession for.
pub struct Subscription {
    pub subscription_id: String,
    pub public_key: String,
}

impl View for Subscription {
    type V = SubscriptionView;

    open spec fn view(&self) -> SubscriptionView {
        SubscriptionView {
            subscription_id: self.subscription_id@,
            public_key: self.public_key@,
        }
    }
}

/// Mathematical image of a [`TableState`].
#[verifier::ext_equal]
pub struct TableStateView {
    pub schema_name: Seq<char>,
    pub table_name: Seq<char>,
    pub access: TableAccessType,
    pub columns: Seq<char>,
    pub rows: Seq<Seq<Seq<char>>>,
}

/// One table the service holds: its qualified name, the access it was
/// declared with, the column text it was created with, and its rows in
/// insertion order.
pub struct TableState {
    pub schema_name: String,
    pub table_name: String,
    pub access: TableAccessType,
    pub columns: String,
    pub rows: Vec<Vec<String>>,
}

impl View for TableState {
    type V = TableStateView;

    open spec fn view(&self) -> TableStateView {
        TableStateView {
            schema_name: self.schema_name@,
            table_name: self.table_name@,
            access: self.access,
            columns: self.columns@,
            rows: self.rows.deep_view(),
        }
    }
}

/// Mathematical image of a [`ServiceModel`].
#[verifier::ext_equal]
pub struct ServiceView {
    pub subscriptions: Seq<SubscriptionView>,
    pub join_codes: Seq<Seq<char>>,
    pub tokens: Seq<Seq<char>>,
    pub tables: Seq<TableStateView>,
}

/// An in-memory model of the remote query service: registered
/// subscriptions, outstanding one-time join codes, the bearer tokens it has
/// issued and not yet expired, and the tables it holds. Every remote
/// behaviour the client relies on is a proved transition of this state.
pub struct ServiceModel {
    pub subscriptions: Vec<Subscription>,
    pub join_codes: Vec<String>,
    pub tokens: Vec<String>,
    pub tables: Vec<TableState>,
}

impl View for ServiceModel {
    type V = ServiceView;

    open spec fn view(&self) -> ServiceView {
        ServiceView {
            subscriptions: self.subscriptions@.map_values(|x: Subscription| x@),
            join_codes: self.join_codes.deep_view(),
            tokens: self.tokens.deep_view(),
            tables: self.tables@.map_values(|x: TableState| x@),
        }
    }
}

/// Index of the first registration of `id`, or -1 when it is unregistered.
pub open spec fn sub_index(subs: Seq<SubscriptionView>, id: Seq<char>) -> int
    decreases subs.len(),
{
    if subs.len() == 0 {
        -1
    } else if subs[0].subscription_id == id {
        0
    } else {
        let r = sub_index(subs.drop_first(), id);
        if r < 0 {
            -1
        } else {
            r + 1
        }
    }
}

/// Index of the first occurrence of `t` in a text sequence, or -1.
pub open spec fn text_index(texts: Seq<Seq<char>>, t: Seq<char>) -> int
    decreases texts.len(),
{
    if texts.len() == 0 {
        -1
    } else if texts[0] == t {
        0
    } else {
        let r = text_index(texts.drop_first(), t);
        if r < 0 {
            -1
        } else {
            r + 1
        }
    }
}

/// Index of the first table named `<schema>.<table>`, or -1.
pub open spec fn table_index(tables: Seq<TableStateView>, schema: Seq<char>, table: Seq<char>) -> int
    decreases tables.len(),
{
    if tables.len() == 0 {
        -1
    } else if tables[0].schema_name == schema && tables[0].table_name == table {
        0
    } else {
        let r = table_index(tables.drop_first(), schema, table);
        if r < 0 {
            -1
        } else {
            r + 1
        }
    }
}

pub proof fn lemma_sub_index_at(subs: Seq<SubscriptionView>, id: Seq<char>, i: int)
    requires
        0 <= i < subs.len(),
        subs[i].subscription_id == id,
        forall|j: int| 0 <= j < i ==> subs[j].subscription_id != id,
    ensures
        sub_index(subs, id) == i,
    decreases subs.len(),
{
    if i > 0 {
        lemma_sub_index_at(subs.drop_first(), id, i - 1);
    }
}

pub proof fn lemma_sub_index_absent(subs: Seq<SubscriptionView>, id: Seq<char>)
    requires
        forall|j: int| 0 <= j < subs.len() ==> subs[j].subscription_id != id,
    ensures
        sub_index(subs, id) == -1,
    decreases subs.len(),
{
    if subs.len() > 0 {
        lemma_sub_index_absent(subs.drop_first(), id);
    }
}

pub proof fn lemma_text_index_at(texts: Seq<Seq<char>>, t: Seq<char>, i: int)
    requires
        0 <= i < texts.len(),
        texts[i] == t,
        forall|j: int| 0 <= j < i ==> texts[j] != t,
    ensures
        text_index(texts, t) == i,
    decreases texts.len(),
{
    if i > 0 {
        lemma_text_index_at(texts.drop_first(), t, i - 1);
    }
}

pub proof fn lemma_text_index_absent(texts: Seq<Seq<char>>, t: Seq<char>)
    requires
        forall|j: int| 0 <= j < texts.len() ==> texts[j] != t,
    ensures
        text_index(texts, t) == -1,
    decreases texts.len(),
{
    if texts.len() > 0 {
        lemma_text_index_absent(texts.drop_first(), t);
    }
}

pub proof fn lemma_table_index_at(
    tables: Seq<TableStateView>,
    schema: Seq<char>,
    table: Seq<char>,
    i: int,
)
    requires
        0 <= i < tables.len(),
        tables[i].schema_name == schema && tables[i].table_name == table,
        forall|j: int|
            0 <= j < i ==> !(tables[j].schema_name == schema && tables[j].table_name == table),
    ensures
        table_index(tables, schema, table) == i,
    decreases tables.len(),
{
    if i > 0 {
        lemma_table_index_at(tables.drop_first(), schema, table, i - 1);
    }
}

pub proof fn lemma_table_index_absent(
    tables: Seq<TableStateView>,
    schema: Seq<char>,
    table: Seq<char>,
)
    requires
        forall|j: int|
            0 <= j < tables.len() ==> !(tables[j].schema_name == schema && tables[j].table_name
                == table),
    ensures
        table_index(tables, schema, table) == -1,
    decreases tables.len(),
{
    if tables.len() > 0 {
        lemma_table_index_absent(tables.drop_first(), schema, table);
    }
}

/// Updating the entry at the found index, names unchanged, leaves every
/// table lookup of that name at the same index.
pub proof fn lemma_table_index_update(
    tables: Seq<TableStateView>,
    schema: Seq<char>,
    table: Seq<char>,
    t: TableStateView,
)
    requires
        0 <= table_index(tables, schema, table) < tables.len(),
        t.schema_name == schema,
        t.table_name == table,
    ensures
        table_index(tables.update(table_index(tables, schema, table), t), schema, table)
            == table_index(tables, schema, table),
{
    let i = table_index(tables, schema, table);
    lemma_table_index_props(tables, schema, table);
    let u = tables.update(i, t);
    assert forall|j: int|
        0 <= j < i implies !(u[j].schema_name == schema && u[j].table_name == table) by {
        assert(u[j] == tables[j]);
    }
    lemma_table_index_at(u, schema, table, i);
}

pub proof fn lemma_table_index_props(
    tables: Seq<TableStateView>,
    schema: Seq<char>,
    table: Seq<char>,
)
    ensures
        table_index(tables, schema, table) == -1 ==> forall|j: int|
            0 <= j < tables.len() ==> !(tables[j].schema_name == schema && tables[j].table_name
                == table),
        table_index(tables, schema, table) != -1 ==> {
            let i = table_index(tables, schema, table);
            0 <= i < tables.len() && tables[i].schema_name == schema && tables[i].table_name
                == table && forall|j: int|
                0 <= j < i ==> !(tables[j].schema_name == schema && tables[j].table_name == table)
        },
    decreases tables.len(),
{
    if tables.len() > 0 && !(tables[0].schema_name == schema && tables[0].table_name == table) {
        lemma_table_index_props(tables.drop_first(), schema, table);
        let t = tables.drop_first();
        let r = table_index(t, schema, table);
        if r >= 0 {
            assert forall|j: int|
                0 <= j < r + 1 implies !(tables[j].schema_name == schema && tables[j].table_name
                == table) by {
                if j > 0 {
                    assert(t[j - 1] == tables[j]);
                }
            }
        } else {
            assert forall|j: int|
                0 <= j < tables.len() implies !(tables[j].schema_name == schema
                && tables[j].table_name == table) by {
                if j > 0 {
                    assert(t[j - 1] == tables[j]);
                }
            }
        }
    }
}

/// Whether a row answers a delete predicate: the model keys rows by their
/// leading cell, so a predicate's value is compared against it.
pub open spec fn row_matches(row: Seq<Seq<char>>, value: Seq<char>) -> bool {
    row.len() > 0 && row[0] == value
}

/// The rows that survive a delete with the given predicate value, in their
/// stored order.
pub open spec fn surviving(rows: Seq<Seq<Seq<char>>>, value: Seq<char>) -> Seq<Seq<Seq<char>>>
    decreases rows.len(),
{
    if rows.len() == 0 {
        Seq::empty()
    } else {
        let rest = surviving(rows.drop_first(), value);
        if row_matches(rows[0], value) {
            rest
        } else {
            seq![rows[0]] + rest
        }
    }
}

pub proof fn lemma_surviving_push(rows: Seq<Seq<Seq<char>>>, x: Seq<Seq<char>>, value: Seq<char>)
    ensures
        surviving(rows.push(x), value) == surviving(rows, value) + if row_matches(x, value) {
            Seq::<Seq<Seq<char>>>::empty()
        } else {
            seq![x]
        },
        surviving(rows, value).len() <= rows.len(),
    decreases rows.len(),
{
    let p = rows.push(x);
    if rows.len() == 0 {
        assert(p.drop_first() =~= Seq::<Seq<Seq<char>>>::empty());
        assert(surviving(p.drop_first(), value) =~= Seq::<Seq<Seq<char>>>::empty());
        if row_matches(x, value) {
            assert(surviving(p, value) =~= surviving(rows, value));
        } else {
            assert(surviving(p, value) =~= surviving(rows, value) + seq![x]);
        }
    } else {
        assert(p[0] == rows[0]);
        assert(p.drop_first() =~= rows.drop_first().push(x));
        lemma_surviving_push(rows.drop_first(), x, value);
        if row_matches(x, value) {
        } else {
            assert(surviving(p, value) =~= surviving(rows, value) + seq![x]);
        }
    }
}

/// The bearer token issued for a subscription id.
pub open spec fn token_text(id: Seq<char>) -> Seq<char> {
    "tok-"@ + id
}

/// What a query returns: rows, a count of affected rows, or a bare
/// acknowledgement.
pub enum QueryOutcome {
    Rows(Vec<Vec<String>>),
    Affected(usize),
    Ack,
}

/// Mathematical image of a [`QueryOutcome`].
#[verifier::ext_equal]
pub enum QueryOutcomeView {
    Rows(Seq<Seq<Seq<char>>>),
    Affected(nat),
    Ack,
}

impl View for QueryOutcome {
    type V = QueryOutcomeView;

    open spec fn view(&self) -> QueryOutcomeView {
        match self {
            QueryOutcome::Rows(rows) => QueryOutcomeView::Rows(rows.deep_view()),
            QueryOutcome::Affected(n) => QueryOutcomeView::Affected(*n as nat),
            QueryOutcome::Ack => QueryOutcomeView::Ack,
        }
    }
}

/// State and result of authenticating `id` with public key `pk` and proof
/// of possession `sig`.
pub open spec fn auth_transition(s: ServiceView, id: Seq<char>, pk: Seq<char>, sig: Seq<char>) -> (
    ServiceView,
    Result<Seq<char>, SxtError>,
) {
    let i = sub_index(s.subscriptions, id);
    if i < 0 {
        (s, Err(SxtError::AuthError(AuthFailure::InvalidSubscription)))
    } else if s.subscriptions[i].public_key != pk || sig != Identity::signature_text(pk, id) {
        (s, Err(SxtError::AuthError(AuthFailure::InvalidSignature)))
    } else {
        (ServiceView { tokens: s.tokens.push(token_text(id)), ..s }, Ok(token_text(id)))
    }
}

/// State and result of joining with a one-time code: on success the code is
/// consumed, the identity registered, and a token issued.
pub open spec fn join_transition(s: ServiceView, id: Seq<char>, pk: Seq<char>, code: Seq<char>) -> (
    ServiceView,
    Result<Seq<char>, SxtError>,
) {
    let c = text_index(s.join_codes, code);
    if c < 0 {
        (s, Err(SxtError::AuthError(AuthFailure::InvalidJoinCode)))
    } else {
        (
            ServiceView {
                join_codes: s.join_codes.remove(c),
                subscriptions: s.subscriptions.push(
                    SubscriptionView { subscription_id: id, public_key: pk },
                ),
                tokens: s.tokens.push(token_text(id)),
                ..s
            },
            Ok(token_text(id)),
        )
    }
}

/// State and result of creating a table with its declared access.
pub open spec fn create_transition(
    s: ServiceView,
    schema: Seq<char>,
    table: Seq<char>,
    access: TableAccessType,
    columns: Seq<char>,
) -> (ServiceView, Result<(), SxtError>) {
    if table_index(s.tables, schema, table) >= 0 {
        (s, Err(SxtError::AlreadyExists))
    } else {
        (
            ServiceView {
                tables: s.tables.push(
                    TableStateView {
                        schema_name: schema,
                        table_name: table,
                        access,
                        columns,
                        rows: Seq::empty(),
                    },
                ),
                ..s
            },
            Ok(()),
        )
    }
}

/// State and result of inserting the parsed rows of a values text. A
/// query naming a table the service does not hold is rejected by the
/// service as unparseable for it — the remote-rejected-SQL kind — as a
/// malformed values fragment is.
pub open spec fn insert_transition(
    s: ServiceView,
    schema: Seq<char>,
    table: Seq<char>,
    values: Seq<char>,
) -> (ServiceView, Result<nat, SxtError>) {
    let ti = table_index(s.tables, schema, table);
    if ti < 0 {
        (s, Err(SxtError::QuerySyntaxError))
    } else {
        match rows_of_values(values) {
            None => (s, Err(SxtError::QuerySyntaxError)),
            Some(vs) => (
                ServiceView {
                    tables: s.tables.update(
                        ti,
                        TableStateView { rows: s.tables[ti].rows + vs, ..s.tables[ti] },
                    ),
                    ..s
                },
                Ok(vs.len()),
            ),
        }
    }
}

/// The rows a select returns: the table's rows, in stored order. A select
/// naming a table the service does not hold is rejected as remote-rejected
/// SQL. A trailing clause is carried on the wire but not interpreted by
/// the model.
pub open spec fn select_result(s: ServiceView, schema: Seq<char>, table: Seq<char>) -> Result<
    Seq<Seq<Seq<char>>>,
    SxtError,
> {
    let ti = table_index(s.tables, schema, table);
    if ti < 0 {
        Err(SxtError::QuerySyntaxError)
    } else {
        Ok(s.tables[ti].rows)
    }
}

/// State and result of a delete keyed on the predicate value.
pub open spec fn delete_transition(
    s: ServiceView,
    schema: Seq<char>,
    table: Seq<char>,
    value: Seq<char>,
) -> (ServiceView, Result<nat, SxtError>) {
    let ti = table_index(s.tables, schema, table);
    if ti < 0 {
        (s, Err(SxtError::QuerySyntaxError))
    } else {
        let kept = surviving(s.tables[ti].rows, value);
        (
            ServiceView {
                tables: s.tables.update(ti, TableStateView { rows: kept, ..s.tables[ti] }),
                ..s
            },
            Ok((s.tables[ti].rows.len() - kept.len()) as nat),
        )
    }
}

/// The full meaning of executing a parsed request under a bearer token:
/// the state after the call and what it returns. An unknown token fails
/// with [`SxtError::AuthExpired`] and changes nothing.
pub open spec fn execute_transition(s: ServiceView, token: Seq<char>, q: crate::query::QueryRequestView) -> (
    ServiceView,
    Result<QueryOutcomeView, SxtError>,
) {
    if text_index(s.tokens, token) < 0 {
        (s, Err(SxtError::AuthExpired))
    } else {
        match q {
            crate::query::QueryRequestView::SelectLiteral { value } => (
                s,
                Ok(QueryOutcomeView::Rows(seq![seq![value]])),
            ),
            crate::query::QueryRequestView::SelectAll { schema, table, clause: _ } => (
                s,
                match select_result(s, schema, table) {
                    Ok(rows) => Ok(QueryOutcomeView::Rows(rows)),
                    Err(e) => Err(e),
                },
            ),
            crate::query::QueryRequestView::Insert { schema, table, fields: _, values } => {
                let (s1, r) = insert_transition(s, schema, table, values);
                (
                    s1,
                    match r {
                        Ok(n) => Ok(QueryOutcomeView::Affected(n)),
                        Err(e) => Err(e),
                    },
                )
            },
            crate::query::QueryRequestView::DeleteFrom { schema, table, column: _, value } => {
                let (s1, r) = delete_transition(s, schema, table, value);
                (
                    s1,
                    match r {
                        Ok(n) => Ok(QueryOutcomeView::Affected(n)),
                        Err(e) => Err(e),
                    },
                )
            },
            crate::query::QueryRequestView::CreateTable { schema, table, access, columns } => {
                let (s1, r) = create_transition(s, schema, table, access, columns);
                (
                    s1,
                    match r {
                        Ok(()) => Ok(QueryOutcomeView::Ack),
                        Err(e) => Err(e),
                    },
                )
            },
        }
    }
}

/// The law of selecting after inserting: when a table exists and the
/// values text parses to rows, the insert reports exactly that many rows,
/// and a select then returns the table's earlier rows followed by the
/// inserted ones, in insertion order — at least as many rows as were
/// inserted, and the service alone determines the order.
pub proof fn lemma_select_after_insert(
    s: ServiceView,
    schema: Seq<char>,
    table: Seq<char>,
    values: Seq<char>,
)
    requires
        table_index(s.tables, schema, table) >= 0,
        rows_of_values(values) is Some,
    ensures
        ({
            let (s1, r) = insert_transition(s, schema, table, values);
            let vs = rows_of_values(values)->Some_0;
            let before = s.tables[table_index(s.tables, schema, table)].rows;
            r == Ok::<nat, SxtError>(vs.len()) && select_result(s1, schema, table) == Ok::<
                Seq<Seq<Seq<char>>>,
                SxtError,
            >(before + vs) && (before + vs).len() >= vs.len() && (before + vs).subrange(
                before.len() as int,
                (before + vs).len() as int,
            ) == vs
        }),
{
    let ti = table_index(s.tables, schema, table);
    lemma_table_index_props(s.tables, schema, table);
    let vs = rows_of_values(values)->Some_0;
    let before = s.tables[ti].rows;
    let t1 = TableStateView { rows: before + vs, ..s.tables[ti] };
    lemma_table_index_update(s.tables, schema, table, t1);
    let (s1, r) = insert_transition(s, schema, table, values);
    assert(table_index(s1.tables, schema, table) == ti);
    assert(s1.tables[ti] == t1);
    assert((before + vs).subrange(before.len() as int, (before + vs).len() as int) =~= vs);
}

/// A fresh copy of one row.
fn clone_row(row: &Vec<String>) -> (r: Vec<String>)
    ensures
        r.deep_view() == row.deep_view(),
{
    let n = row.len();
    let mut out: Vec<String> = Vec::new();
    let mut i: usize = 0;
    while i < n
        invariant
            n == row.len(),
            0 <= i <= n,
            out.deep_view() =~~= row.deep_view().take(i as int),
        decreases n - i,
    {
        let ghost v0 = out@;
        proof {
            assert(out.deep_view() == row.deep_view().take(i as int));
            assert(out.deep_view().len() == i as int);
            assert(v0.len() == i as int);
        }
        let c = row[i].clone();
        proof {
            assert(c@ == row@[i as int]@);
        }
        out.push(c);
        proof {
            assert(out@ == v0.push(row@[i as int]));
            assert forall|j: int| 0 <= j < i + 1 implies out.deep_view()[j] == row.deep_view().take(
                i + 1 as int,
            )[j] by {
                assert(out.deep_view()[j] == out@[j].deep_view());
                if j < i as int {
                    assert(out@[j] == v0[j]);
                } else {
                    assert(out@[j] == row@[i as int]);
                }
            }
            assert(out.deep_view() =~~= row.deep_view().take(i + 1 as int));
        }
        i = i + 1;
    }
    proof {
        assert(row.deep_view().take(n as int) =~~= row.deep_view());
    }
    out
}

/// A fresh copy of a row sequence.
fn clone_rows(rows: &Vec<Vec<String>>) -> (r: Vec<Vec<String>>)
    ensures
        r.deep_view() == rows.deep_view(),
{
    let n = rows.len();
    let mut out: Vec<Vec<String>> = Vec::new();
    let mut i: usize = 0;
    while i < n
        invariant
            n == rows.len(),
            0 <= i <= n,
            out.deep_view() =~~= rows.deep_view().take(i as int),
        decreases n - i,
    {
        out.push(clone_row(&rows[i]));
        proof {
            assert(out.deep_view() =~~= rows.deep_view().take(i + 1 as int));
        }
        i = i + 1;
    }
    proof {
        assert(rows.deep_view().take(n as int) =~~= rows.deep_view());
    }
    out
}

impl ServiceModel {
    /// A service with nothing registered and no tables.
    pub fn new() -> (r: ServiceModel)
        ensures
            r@.subscriptions.len() == 0,
            r@.join_codes.len() == 0,
            r@.tokens.len() == 0,
            r@.tables.len() == 0,
    {
        ServiceModel {
            subscriptions: Vec::new(),
            join_codes: Vec::new(),
            tokens: Vec::new(),
            tables: Vec::new(),
        }
    }

    /// Registers a subscription id with the public key it will be asked to
    /// prove possession of. An administrative act of the model, standing
    /// for enrollment done out of band.
    pub fn register_subscription(&mut self, subscription_id: String, public_key: String)
        ensures
            final(self)@ == (ServiceView {
                subscriptions: old(self)@.subscriptions.push(
                    SubscriptionView {
                        subscription_id: subscription_id@,
                        public_key: public_key@,
                    },
                ),
                ..old(self)@
            }),
    {
        let ghost before = self@;
        self.subscriptions.push(Subscription { subscription_id, public_key });
        proof {
            assert(self@.subscriptions =~= before.subscriptions.push(
                SubscriptionView { subscription_id: subscription_id@, public_key: public_key@ },
            ));
            assert(self@.join_codes =~= before.join_codes);
            assert(self@.tokens =~= before.tokens);
            assert(self@.tables =~= before.tables);
        }
    }

    /// Makes a one-time join code available.
    pub fn add_join_code(&mut self, code: String)
        ensures
            final(self)@ == (ServiceView {
                join_codes: old(self)@.join_codes.push(code@),
                ..old(self)@
            }),
    {
        let ghost before = self@;
        self.join_codes.push(code);
        proof {
            assert(self@.join_codes =~= before.join_codes.push(code@));
            assert(self@.subscriptions =~= before.subscriptions);
            assert(self@.tokens =~= before.tokens);
            assert(self@.tables =~= before.tables);
        }
    }

    /// Withdraws every issued bearer token, as a token expiry would.
    pub fn expire_tokens(&mut self)
        ensures
            final(self)@ == (ServiceView { tokens: Seq::empty(), ..old(self)@ }),
    {
        let ghost before = self@;
        self.tokens.clear();
        proof {
            assert(self@.tokens =~= Seq::<Seq<char>>::empty());
            assert(self@.subscriptions =~= before.subscriptions);
            assert(self@.join_codes =~= before.join_codes);
            assert(self@.tables =~= before.tables);
        }
    }

    fn find_subscription(&self, id: &str) -> (r: Option<usize>)
        ensures
            match r {
                Some(i) => sub_index(self@.subscriptions, id@) == i && i
                    < self@.subscriptions.len(),
                None => sub_index(self@.subscriptions, id@) == -1,
            },
    {
        let n = self.subscriptions.len();
        let mut i: usize = 0;
        while i < n
            invariant
                n == self.subscriptions.len(),
                0 <= i <= n,
                forall|j: int| 0 <= j < i ==> self@.subscriptions[j].subscription_id != id@,
            decreases n - i,
        {
            if str_eq(self.subscriptions[i].subscription_id.as_str(), id) {
                proof {
                    lemma_sub_index_at(self@.subscriptions, id@, i as int);
                }
                return Some(i);
            }
            i = i + 1;
        }
        proof {
            lemma_sub_index_absent(self@.subscriptions, id@);
        }
        None
    }

    fn find_token(&self, t: &str) -> (r: Option<usize>)
        ensures
            match r {
                Some(i) => text_index(self@.tokens, t@) == i && i < self@.tokens.len(),
                None => text_index(self@.tokens, t@) == -1,
            },
    {
        let n = self.tokens.len();
        let mut i: usize = 0;
        while i < n
            invariant
                n == self.tokens.len(),
                0 <= i <= n,
                forall|j: int| 0 <= j < i ==> self@.tokens[j] != t@,
            decreases n - i,
        {
            if str_eq(self.tokens[i].as_str(), t) {
                proof {
                    lemma_text_index_at(self@.tokens, t@, i as int);
                }
                return Some(i);
            }
            i = i + 1;
        }
        proof {
            lemma_text_index_absent(self@.tokens, t@);
        }
        None
    }

    fn find_join_code(&self, c: &str) -> (r: Option<usize>)
        ensures
            match r {
                Some(i) => text_index(self@.join_codes, c@) == i && i
                    < self@.join_codes.len(),
                None => text_index(self@.join_codes, c@) == -1,
            },
    {
        let n = self.join_codes.len();
        let mut i: usize = 0;
        while i < n
            invariant
                n == self.join_codes.len(),
                0 <= i <= n,
                forall|j: int| 0 <= j < i ==> self@.join_codes[j] != c@,
            decreases n - i,
        {
            if str_eq(self.join_codes[i].as_str(), c) {
                proof {
                    lemma_text_index_at(self@.join_codes, c@, i as int);
                }
                return Some(i);
            }
            i = i + 1;
        }
        proof {
            lemma_text_index_absent(self@.join_codes, c@);
        }
        None
    }

    fn find_table(&self, schema: &str, table: &str) -> (r: Option<usize>)
        ensures
            match r {
                Some(i) => table_index(self@.tables, schema@, table@) == i && i
                    < self@.tables.len(),
                None => table_index(self@.tables, schema@, table@) == -1,
            },
    {
        let n = self.tables.len();
        let mut i: usize = 0;
        while i < n
            invariant
                n == self.tables.len(),
                0 <= i <= n,
                forall|j: int|
                    0 <= j < i ==> !(self@.tables[j].schema_name == schema@
                        && self@.tables[j].table_name == table@),
            decreases n - i,
        {
            if str_eq(self.tables[i].schema_name.as_str(), schema) && str_eq(
                self.tables[i].table_name.as_str(),
                table,
            ) {
                proof {
                    lemma_table_index_at(self@.tables, schema@, table@, i as int);
                }
                return Some(i);
            }
            i = i + 1;
        }
        proof {
            lemma_table_index_absent(self@.tables, schema@, table@);
        }
        None
    }

    /// The authentication handshake: checks that `subscription_id` is
    /// registered under `public_key` and that `sig` is the expected proof
    /// of possession, then issues a bearer token. An unregistered id fails
    /// with `InvalidSubscription`; a wrong key or proof with
    /// `InvalidSignature`; nothing else can fail.
    pub fn authenticate_request(
        &mut self,
        subscription_id: &str,
        public_key: &str,
        sig: &str,
    ) -> (r: Result<String, SxtError>)
        ensures
            ({
                let (s1, rr) = auth_transition(
                    old(self)@,
                    subscription_id@,
                    public_key@,
                    sig@,
                );
                final(self)@ == s1 && match r {
                    Ok(t) => rr == Ok::<Seq<char>, SxtError>(t@),
                    Err(e) => rr == Err::<Seq<char>, SxtError>(e),
                }
            }),
    {
        let i = match self.find_subscription(subscription_id) {
            None => {
                return Err(SxtError::AuthError(AuthFailure::InvalidSubscription));
            },
            Some(i) => i,
        };
        if !str_eq(self.subscriptions[i].public_key.as_str(), public_key) {
            return Err(SxtError::AuthError(AuthFailure::InvalidSignature));
        }
        let mut expected = String::from_str("sig:");
        expected.append(public_key);
        expected.append(":");
        expected.append(subscription_id);
        proof {
            assert(expected@ =~= Identity::signature_text(public_key@, subscription_id@));
        }
        if !str_eq(expected.as_str(), sig) {
            return Err(SxtError::AuthError(AuthFailure::InvalidSignature));
        }
        let mut token = String::from_str("tok-");
        token.append(subscription_id);
        proof {
            assert(token@ =~= token_text(subscription_id@));
        }
        let ghost before = self@;
        self.tokens.push(token.clone());
        proof {
            assert(self@.tokens =~= before.tokens.push(token_text(subscription_id@)));
            assert(self@.subscriptions =~= before.subscriptions);
            assert(self@.join_codes =~= before.join_codes);
            assert(self@.tables =~= before.tables);
        }
        Ok(token)
    }

    /// The one-time-code enrollment: an unknown or already-used code fails
    /// with `InvalidJoinCode`; otherwise the code is consumed, the identity
    /// registered under its public key, and a token issued.
    pub fn join_request(&mut self, subscription_id: &str, public_key: &str, code: &str) -> (r:
        Result<String, SxtError>)
        ensures
            ({
                let (s1, rr) = join_transition(old(self)@, subscription_id@, public_key@, code@);
                final(self)@ == s1 && match r {
                    Ok(t) => rr == Ok::<Seq<char>, SxtError>(t@),
                    Err(e) => rr == Err::<Seq<char>, SxtError>(e),
                }
            }),
    {
        let c = match self.find_join_code(code) {
            None => {
                return Err(SxtError::AuthError(AuthFailure::InvalidJoinCode));
            },
            Some(c) => c,
        };
        let ghost before = self@;
        self.join_codes.remove(c);
        self.subscriptions.push(
            Subscription {
                subscription_id: String::from_str(subscription_id),
                public_key: String::from_str(public_key),
            },
        );
        let mut token = String::from_str("tok-");
        token.append(subscription_id);
        proof {
            assert(token@ =~= token_text(subscription_id@));
        }
        self.tokens.push(token.clone());
        proof {
            assert(self@.join_codes =~= before.join_codes.remove(c as int));
            assert(self@.subscriptions =~= before.subscriptions.push(
                SubscriptionView { subscription_id: subscription_id@, public_key: public_key@ },
            ));
            assert(self@.tokens =~= before.tokens.push(token_text(subscription_id@)));
            assert(self@.tables =~= before.tables);
        }
        Ok(token)
    }

    /// Executes a parsed request under a bearer token, exactly as
    /// [`execute_transition`] says.
    pub fn execute(&mut self, token: &str, q: &QueryRequest) -> (r: Result<QueryOutcome, SxtError>)
        ensures
            ({
                let (s1, rr) = execute_transition(old(self)@, token@, q@);
                final(self)@ == s1 && match r {
                    Ok(out) => rr == Ok::<QueryOutcomeView, SxtError>(out@),
                    Err(e) => rr == Err::<QueryOutcomeView, SxtError>(e),
                }
            }),
    {
        if self.find_token(token).is_none() {
            return Err(SxtError::AuthExpired);
        }
        match q {
            QueryRequest::SelectLiteral { value } => {
                let mut row: Vec<String> = Vec::new();
                row.push(value.clone());
                let mut rows: Vec<Vec<String>> = Vec::new();
                rows.push(row);
                proof {
                    assert(rows.deep_view() =~~= seq![seq![value@]]);
                }
                Ok(QueryOutcome::Rows(rows))
            },
            QueryRequest::SelectAll { schema, table, clause: _ } => {
                let ti = match self.find_table(schema.as_str(), table.as_str()) {
                    None => {
                        return Err(SxtError::QuerySyntaxError);
                    },
                    Some(ti) => ti,
                };
                let rows = clone_rows(&self.tables[ti].rows);
                proof {
                    assert(self@.tables[ti as int].rows == self.tables@[ti as int]@.rows);
                }
                Ok(QueryOutcome::Rows(rows))
            },
            QueryRequest::Insert { schema, table, fields: _, values } => {
                let ti = match self.find_table(schema.as_str(), table.as_str()) {
                    None => {
                        return Err(SxtError::QuerySyntaxError);
                    },
                    Some(ti) => ti,
                };
                let mut vs = match crate::query::parse_rows(values.as_str()) {
                    None => {
                        return Err(SxtError::QuerySyntaxError);
                    },
                    Some(vs) => vs,
                };
                let n = vs.len();
                let ghost before = self@;
                let ghost added = vs.deep_view();
                let mut t = self.tables.remove(ti);
                let ghost rows0 = t.rows.deep_view();
                t.rows.append(&mut vs);
                proof {
                    assert(t.rows.deep_view() =~= rows0 + added);
                }
                self.tables.insert(ti, t);
                proof {
                    assert(self@.tables =~= before.tables.update(
                        ti as int,
                        TableStateView { rows: rows0 + added, ..before.tables[ti as int] },
                    ));
                    assert(self@.subscriptions =~= before.subscriptions);
                    assert(self@.join_codes =~= before.join_codes);
                    assert(self@.tokens =~= before.tokens);
                }
                Ok(QueryOutcome::Affected(n))
            },
            QueryRequest::DeleteFrom { schema, table, column: _, value } => {
                let ti = match self.find_table(schema.as_str(), table.as_str()) {
                    None => {
                        return Err(SxtError::QuerySyntaxError);
                    },
                    Some(ti) => ti,
                };
                let ghost before = self@;
                let mut t = self.tables.remove(ti);
                let ghost rows0 = t.rows.deep_view();
                let n = t.rows.len();
                let mut kept: Vec<Vec<String>> = Vec::new();
                let mut i: usize = 0;
                while i < n
                    invariant
                        n == t.rows.len(),
                        0 <= i <= n,
                        rows0 == t.rows.deep_view(),
                        kept.deep_view() =~= surviving(rows0.take(i as int), value@),
                        kept.len() <= i,
                    decreases n - i,
                {
                    let keep = if t.rows[i].len() == 0 {
                        true
                    } else {
                        !str_eq(t.rows[i][0].as_str(), value.as_str())
                    };
                    proof {
                        lemma_surviving_push(rows0.take(i as int), rows0[i as int], value@);
                        assert(rows0.take(i + 1 as int) =~= rows0.take(i as int).push(
                            rows0[i as int],
                        ));
                    }
                    if keep {
                        kept.push(clone_row(&t.rows[i]));
                        proof {
                            assert(kept.deep_view() =~= surviving(rows0.take(i + 1 as int), value@));
                        }
                    } else {
                        proof {
                            assert(kept.deep_view() =~= surviving(rows0.take(i + 1 as int), value@));
                        }
                    }
                    i = i + 1;
                }
                proof {
                    assert(rows0.take(n as int) =~= rows0);
                }
                let removed = n - kept.len();
                t.rows = kept;
                self.tables.insert(ti, t);
                proof {
                    assert(self@.tables =~= before.tables.update(
                        ti as int,
                        TableStateView {
                            rows: surviving(before.tables[ti as int].rows, value@),
                            ..before.tables[ti as int]
                        },
                    ));
                    assert(self@.subscriptions =~= before.subscriptions);
                    assert(self@.join_codes =~= before.join_codes);
                    assert(self@.tokens =~= before.tokens);
                }
                Ok(QueryOutcome::Affected(removed))
            },
            QueryRequest::CreateTable { schema, table, access, columns } => {
                if self.find_table(schema.as_str(), table.as_str()).is_some() {
                    return Err(SxtError::AlreadyExists);
                }
                let ghost before = self@;
                self.tables.push(
                    TableState {
                        schema_name: schema.clone(),
                        table_name: table.clone(),
                        access: *access,
                        columns: columns.clone(),
                        rows: Vec::new(),
                    },
                );
                proof {
                    assert(self@.tables =~~= before.tables.push(
                        TableStateView {
                            schema_name: schema@,
                            table_name: table@,
                            access: *access,
                            columns: columns@,
                            rows: Seq::empty(),
                        },
                    ));
                    assert(self@.subscriptions =~= before.subscriptions);
                    assert(self@.join_codes =~= before.join_codes);
                    assert(self@.tokens =~= before.tokens);
                }
                Ok(QueryOutcome::Ack)
            },
        }
    }
}

} // verus!
