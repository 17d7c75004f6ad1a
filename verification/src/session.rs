use vstd::prelude::*;

use crate::errors::SxtError;
use crate::identity::{Identity, IdentityView};
use crate::query::{parse_query, query_of_text};
use crate::service::{
    auth_transition, execute_transition, join_transition, sub_index, QueryOutcome,
    QueryOutcomeView, ServiceModel, ServiceView,
};
use crate::strutil::{digits_only, is_digit};

verus! {

/// Mathematical image of a [`Session`].
pub struct SessionView {
    pub identity: IdentityView,
    pub access_token: Seq<char>,
}

/// An authenticated identity: the identity together with the bearer token
/// the service issued for it. Only [`authenticate`] and
/// [`join_subscription`] construct one, so holding a `Session` is holding
/// proof that authentication succeeded. The token is read-only for the
/// session's lifetime.
pub struct Session {
    identity: Identity,
    access_token: String,
}

impl View for Session {
    type V = SessionView;

    closed spec fn view(&self) -> SessionView {
        SessionView { identity: self.identity@, access_token: self.access_token@ }
    }
}

/// The proof of possession an identity presents when authenticating: its
/// signature over its own subscription id.
pub open spec fn possession_sig(id: IdentityView) -> Seq<char> {
    Identity::signature_text(id.keypair.public_key, id.subscription_id)
}

/// Authenticates `identity` against the service and wraps the issued
/// bearer token. Fails with `InvalidSubscription` exactly when the
/// subscription id is unregistered, with `InvalidSignature` exactly when
/// the registered public key differs from the identity's; succeeds
/// otherwise, and cannot fail any other way.
pub fn authenticate(identity: Identity, service: &mut ServiceModel) -> (r: Result<
    Session,
    SxtError,
>)
    ensures
        ({
            let (s1, rr) = auth_transition(
                old(service)@,
                identity@.subscription_id,
                identity@.keypair.public_key,
                possession_sig(identity@),
            );
            final(service)@ == s1 && match r {
                Ok(sess) => sess@.identity == identity@ && rr == Ok::<Seq<char>, SxtError>(
                    sess@.access_token,
                ),
                Err(e) => rr == Err::<Seq<char>, SxtError>(e),
            }
        }),
{
    let sig = identity.sign(identity.subscription_id.as_str());
    let token = match service.authenticate_request(
        identity.subscription_id.as_str(),
        identity.keypair.public_key.as_str(),
        sig.as_str(),
    ) {
        Ok(t) => t,
        Err(e) => {
            return Err(e);
        },
    };
    Ok(Session { identity, access_token: token })
}

/// Enrolls a fresh identity under a one-time join code. Fails with
/// `InvalidJoinCode` exactly when the code is unknown or already used; on
/// success the code is consumed, the identity registered, and a session
/// returned.
pub fn join_subscription(identity: Identity, join_code: &str, service: &mut ServiceModel) -> (r:
    Result<Session, SxtError>)
    ensures
        ({
            let (s1, rr) = join_transition(
                old(service)@,
                identity@.subscription_id,
                identity@.keypair.public_key,
                join_code@,
            );
            final(service)@ == s1 && match r {
                Ok(sess) => sess@.identity == identity@ && rr == Ok::<Seq<char>, SxtError>(
                    sess@.access_token,
                ),
                Err(e) => rr == Err::<Seq<char>, SxtError>(e),
            }
        }),
{
    let token = match service.join_request(
        identity.subscription_id.as_str(),
        identity.keypair.public_key.as_str(),
        join_code,
    ) {
        Ok(t) => t,
        Err(e) => {
            return Err(e);
        },
    };
    Ok(Session { identity, access_token: token })
}

/// An authentication attempt for an identity whose subscription id is not
/// registered fails with `InvalidSubscription` and changes nothing: never
/// a transport error, never a false success.
pub proof fn lemma_authenticate_unregistered(s: ServiceView, id: IdentityView)
    requires
        sub_index(s.subscriptions, id.subscription_id) < 0,
    ensures
        auth_transition(s, id.subscription_id, id.keypair.public_key, possession_sig(id)) == (
            s,
            Err::<Seq<char>, SxtError>(
                SxtError::AuthError(crate::errors::AuthFailure::InvalidSubscription),
            ),
        ),
{
}

/// An authentication attempt for an identity registered under its own
/// public key succeeds, and the issued token is recorded by the service.
pub proof fn lemma_authenticate_registered(s: ServiceView, id: IdentityView)
    requires
        ({
            let i = sub_index(s.subscriptions, id.subscription_id);
            0 <= i < s.subscriptions.len() && s.subscriptions[i].public_key
                == id.keypair.public_key
        }),
    ensures
        ({
            let (s1, rr) = auth_transition(
                s,
                id.subscription_id,
                id.keypair.public_key,
                possession_sig(id),
            );
            rr == Ok::<Seq<char>, SxtError>(crate::service::token_text(id.subscription_id))
                && s1.tokens == s.tokens.push(crate::service::token_text(id.subscription_id))
        }),
{
}

impl Session {
    /// The subscription id this session authenticated.
    pub fn subscription_id(&self) -> (r: &String)
        ensures
            r@ == self@.identity.subscription_id,
    {
        &self.identity.subscription_id
    }

    /// The bearer token held for API calls, as a credential cache would
    /// record it. A session always holds one.
    pub fn api_key_login(&self) -> (r: Option<String>)
        ensures
            r matches Some(t) && t@ == self@.access_token,
    {
        Some(self.access_token.clone())
    }

    /// Sends a query text under this session's token. A text the grammar
    /// rejects fails with `QuerySyntaxError`, touches nothing, and never
    /// reaches the service; otherwise the parsed request is executed
    /// exactly as [`execute_transition`] says.
    pub fn execute_query(&self, sql: &str, service: &mut ServiceModel) -> (r: Result<
        QueryOutcome,
        SxtError,
    >)
        ensures
            query_of_text(sql@) is None ==> r == Err::<QueryOutcome, SxtError>(
                SxtError::QuerySyntaxError,
            ) && final(service)@ == old(service)@,
            ({
                match query_of_text(sql@) {
                    Some(q) => {
                        let (s1, rr) = execute_transition(old(service)@, self@.access_token, q);
                        final(service)@ == s1 && match r {
                            Ok(out) => rr == Ok::<QueryOutcomeView, SxtError>(out@),
                            Err(e) => rr == Err::<QueryOutcomeView, SxtError>(e),
                        }
                    },
                    None => true,
                }
            }),
    {
        let q = match parse_query(sql) {
            None => {
                return Err(SxtError::QuerySyntaxError);
            },
            Some(q) => q,
        };
        service.execute(self.access_token.as_str(), &q)
    }
}

/// The shape of one decoded field of a record.
#[derive(Clone, Copy, Debug, PartialEq, Eq, Structural)]
pub enum FieldKind {
    /// A cell of decimal digits, decoded to an unsigned integer.
    Integer,
    /// Any cell text, kept as written.
    Text,
}

/// Mathematical image of a [`CellValue`].
#[verifier::ext_equal]
pub enum CellValueView {
    Integer(nat),
    Text(Seq<char>),
}

/// One decoded cell of a returned row.
#[derive(Debug)]
pub enum CellValue {
    Integer(u64),
    Text(String),
}

impl View for CellValue {
    type V = CellValueView;

    open spec fn view(&self) -> CellValueView {
        match self {
            CellValue::Integer(n) => CellValueView::Integer(*n as nat),
            CellValue::Text(s) => CellValueView::Text(s@),
        }
    }
}

impl DeepView for CellValue {
    type V = CellValueView;

    open spec fn deep_view(&self) -> CellValueView {
        self.view()
    }
}

/// The numeric value of a digit text, most significant digit first.
pub open spec fn digits_val(s: Seq<char>) -> nat
    decreases s.len(),
{
    if s.len() == 0 {
        0
    } else {
        digits_val(s.subrange(0, s.len() as int - 1)) * 10 + (s.last() as u32 - 48) as nat
    }
}

/// Whether one cell decodes under the given kind.
pub open spec fn cell_decodes(s: Seq<char>, kind: FieldKind) -> bool {
    match kind {
        FieldKind::Integer => s.len() > 0 && digits_only(s) && digits_val(s) <= u64::MAX,
        FieldKind::Text => true,
    }
}

/// The decoded cell, where [`cell_decodes`] holds.
pub open spec fn decoded_cell(s: Seq<char>, kind: FieldKind) -> CellValueView {
    match kind {
        FieldKind::Integer => CellValueView::Integer(digits_val(s)),
        FieldKind::Text => CellValueView::Text(s),
    }
}

/// Whether a row decodes structurally under a record shape: each
/// requested field must be present in order and decode; a row may carry additional trailing
/// cells, which are ignored, so responses that grow new fields keep
/// decoding.
pub open spec fn row_decodes(row: Seq<Seq<char>>, shape: Seq<FieldKind>) -> bool {
    row.len() >= shape.len() && forall|i: int|
        0 <= i < shape.len() ==> cell_decodes(row[i], shape[i])
}

/// The decoded row, where [`row_decodes`] holds: one cell per requested
/// field, any extra cells of the row dropped.
pub open spec fn decoded_row(row: Seq<Seq<char>>, shape: Seq<FieldKind>) -> Seq<CellValueView> {
    Seq::new(shape.len(), |i: int| decoded_cell(row[i], shape[i]))
}

/// Whether every row of a result decodes under the shape.
pub open spec fn rows_decode(rows: Seq<Seq<Seq<char>>>, shape: Seq<FieldKind>) -> bool {
    forall|i: int| 0 <= i < rows.len() ==> row_decodes(rows[i], shape)
}

/// The decoded result, row by row, where [`rows_decode`] holds.
pub open spec fn decoded_rows(rows: Seq<Seq<Seq<char>>>, shape: Seq<FieldKind>) -> Seq<
    Seq<CellValueView>,
> {
    Seq::new(rows.len(), |i: int| decoded_row(rows[i], shape))
}

/// Decodes one digit text to its numeric value; fails on overflow.
fn decode_digits(s: &str) -> (r: Option<u64>)
    requires
        s@.len() > 0,
        digits_only(s@),
    ensures
        match r {
            Some(n) => digits_val(s@) <= u64::MAX && n == digits_val(s@),
            None => digits_val(s@) > u64::MAX,
        },
{
    let n = s.unicode_len();
    let mut acc: u64 = 0;
    let mut i: usize = 0;
    while i < n
        invariant
            n == s@.len(),
            digits_only(s@),
            0 <= i <= n,
            acc == digits_val(s@.subrange(0, i as int)),
        decreases n - i,
    {
        let c = s.get_char(i);
        let d = (c as u32) - 48;
        proof {
            assert(is_digit(s@[i as int])) by {
                assert(digits_only(s@));
            }
            assert(s@.subrange(0, i + 1 as int).subrange(0, i as int) =~= s@.subrange(0, i as int));
            assert(s@.subrange(0, i + 1 as int).last() == s@[i as int]);
        }
        if acc > (u64::MAX - d as u64) / 10 {
            proof {
                lemma_digits_val_monotonic(s@, i as int);
            }
            return None;
        }
        acc = acc * 10 + d as u64;
        i = i + 1;
    }
    proof {
        assert(s@.subrange(0, n as int) =~= s@);
    }
    Some(acc)
}

/// A digit text's value only grows as it is extended to the right.
proof fn lemma_digits_val_monotonic(s: Seq<char>, i: int)
    requires
        0 <= i < s.len(),
        digits_only(s),
    ensures
        digits_val(s) >= digits_val(s.subrange(0, i + 1)),
    decreases s.len() - i,
{
    if i + 1 == s.len() {
        assert(s.subrange(0, i + 1) =~= s);
    } else {
        lemma_digits_val_monotonic(s, i + 1);
        let t = s.subrange(0, i + 2);
        assert(t.subrange(0, i + 1) =~= s.subrange(0, i + 1));
        assert(digits_val(t) == digits_val(s.subrange(0, i + 1)) * 10 + (t.last() as u32 - 48) as nat);
    }
}

/// Decodes one cell under the given kind; fails exactly where
/// [`cell_decodes`] fails.
fn decode_cell_value(s: &String, kind: FieldKind) -> (r: Option<CellValue>)
    ensures
        match r {
            Some(c) => cell_decodes(s@, kind) && c@ == decoded_cell(s@, kind),
            None => !cell_decodes(s@, kind),
        },
{
    match kind {
        FieldKind::Text => Some(CellValue::Text(s.clone())),
        FieldKind::Integer => {
            if s.as_str().is_empty() || !crate::strutil::all_digits(s.as_str()) {
                return None;
            }
            match decode_digits(s.as_str()) {
                None => None,
                Some(n) => Some(CellValue::Integer(n)),
            }
        },
    }
}

/// Decodes a returned row set under a record shape, structurally: each
/// requested field must be present in order; extra trailing cells are
/// ignored, so rows that grew new fields keep decoding. Fails with
/// `DecodeError` exactly where some row does not decode.
pub fn decode_rows(rows: &Vec<Vec<String>>, shape: &Vec<FieldKind>) -> (r: Result<
    Vec<Vec<CellValue>>,
    SxtError,
>)
    ensures
        match r {
            Ok(out) => rows_decode(rows.deep_view(), shape@) && out.deep_view() == decoded_rows(
                rows.deep_view(),
                shape@,
            ),
            Err(e) => e == SxtError::DecodeError && !rows_decode(rows.deep_view(), shape@),
        },
{
    let n = rows.len();
    let mut out: Vec<Vec<CellValue>> = Vec::new();
    let mut i: usize = 0;
    while i < n
        invariant
            n == rows.len(),
            0 <= i <= n,
            forall|j: int| 0 <= j < i ==> row_decodes(rows.deep_view()[j], shape@),
            out.deep_view() =~~= decoded_rows(rows.deep_view(), shape@).take(i as int),
        decreases n - i,
    {
        let row = &rows[i];
        let m = row.len();
        let sn = shape.len();
        if m < sn {
            proof {
                assert(rows.deep_view()[i as int] == row.deep_view());
                assert(row.deep_view().len() == m);
                assert(!row_decodes(rows.deep_view()[i as int], shape@));
            }
            return Err(SxtError::DecodeError);
        }
        let mut dec: Vec<CellValue> = Vec::new();
        let mut k: usize = 0;
        while k < sn
            invariant
                n == rows.len(),
                0 <= i < n,
                rows.deep_view()[i as int] == row.deep_view(),
                row.deep_view().len() == m,
                m == row.len(),
                sn == shape.len(),
                sn <= m,
                0 <= k <= sn,
                forall|j: int| 0 <= j < k ==> cell_decodes(row.deep_view()[j], shape@[j]),
                dec.deep_view() =~~= decoded_row(row.deep_view(), shape@).take(k as int),
            decreases sn - k,
        {
            proof {
                assert(row.deep_view()[k as int] == row@[k as int]@);
            }
            match decode_cell_value(&row[k], shape[k]) {
                None => {
                    proof {
                        assert(!cell_decodes(row.deep_view()[k as int], shape@[k as int]));
                        assert(rows.deep_view()[i as int] == row.deep_view());
                        assert(!row_decodes(rows.deep_view()[i as int], shape@));
                    }
                    return Err(SxtError::DecodeError);
                },
                Some(c) => {
                    proof {
                        assert(dec.deep_view() == decoded_row(row.deep_view(), shape@).take(
                            k as int,
                        ));
                        assert(decoded_row(row.deep_view(), shape@).len() == sn);
                        assert(decoded_row(row.deep_view(), shape@).take(k as int).len() == k);
                        assert(dec@.len() == k);
                    }
                    dec.push(c);
                    proof {
                        assert(dec.deep_view() =~~= decoded_row(row.deep_view(), shape@).take(
                            k + 1 as int,
                        ));
                    }
                },
            }
            k = k + 1;
        }
        proof {
            assert(dec.deep_view() =~~= decoded_row(row.deep_view(), shape@));
            assert(rows.deep_view()[i as int] == row.deep_view());
        }
        proof {
            assert(out.deep_view() == decoded_rows(rows.deep_view(), shape@).take(i as int));
            assert(decoded_rows(rows.deep_view(), shape@).len() == n);
            assert(decoded_rows(rows.deep_view(), shape@).take(i as int).len() == i);
            assert(out@.len() == i);
        }
        out.push(dec);
        proof {
            assert(out.deep_view() =~~= decoded_rows(rows.deep_view(), shape@).take(i + 1 as int));
        }
        i = i + 1;
    }
    proof {
        assert(decoded_rows(rows.deep_view(), shape@).take(n as int) =~~= decoded_rows(
            rows.deep_view(),
            shape@,
        ));
    }
    Ok(out)
}

impl Session {
    /// Sends a query and decodes the returned rows under a record shape.
    /// A text the grammar rejects always fails with `QuerySyntaxError`,
    /// never `DecodeError`, and never reaches the service; a returned row
    /// that does not fit the shape fails with `DecodeError`, while extra
    /// trailing cells are ignored; an outcome without rows decodes to no
    /// rows.
    pub fn execute_query_decoded(
        &self,
        sql: &str,
        shape: &Vec<FieldKind>,
        service: &mut ServiceModel,
    ) -> (r: Result<Vec<Vec<CellValue>>, SxtError>)
        ensures
            query_of_text(sql@) is None ==> r == Err::<Vec<Vec<CellValue>>, SxtError>(
                SxtError::QuerySyntaxError,
            ) && final(service)@ == old(service)@,
            ({
                match query_of_text(sql@) {
                    Some(q) => {
                        let (s1, rr) = execute_transition(old(service)@, self@.access_token, q);
                        final(service)@ == s1 && match rr {
                            Ok(QueryOutcomeView::Rows(rows)) => match r {
                                Ok(out) => rows_decode(rows, shape@) && out.deep_view()
                                    == decoded_rows(rows, shape@),
                                Err(e) => e == SxtError::DecodeError && !rows_decode(rows, shape@),
                            },
                            Ok(_) => r matches Ok(out) && out@.len() == 0,
                            Err(e) => r == Err::<Vec<Vec<CellValue>>, SxtError>(e),
                        }
                    },
                    None => true,
                }
            }),
    {
        let outcome = match self.execute_query(sql, service) {
            Err(e) => {
                return Err(e);
            },
            Ok(o) => o,
        };
        match outcome {
            QueryOutcome::Rows(rows) => decode_rows(&rows, shape),
            QueryOutcome::Affected(_) => Ok(Vec::new()),
            QueryOutcome::Ack => Ok(Vec::new()),
        }
    }
}

} // verus!
