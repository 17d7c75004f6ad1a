use sxt_client::credentials::{credential_text, parse_credentials};
use sxt_client::errors::{AuthFailure, SxtError};
use sxt_client::identity::{Identity, Keypair, KeypairSource};
use sxt_client::service::{QueryOutcome, ServiceModel};
use sxt_client::session::{authenticate, decode_rows, join_subscription, CellValue, FieldKind};
use sxt_client::table::{Table, TableAccessType};

fn keypair(tag: &str) -> Keypair {
    Keypair {
        private_key: format!("sk-{}", tag),
        public_key: format!("pk-{}", tag),
    }
}

fn identity(sub: &str, tag: &str) -> Identity {
    Identity::create(
        sub.to_string(),
        KeypairSource::Provided { keypair: keypair(tag) },
    )
    .expect("identity should be accepted")
}

fn service_with(sub: &str, tag: &str) -> ServiceModel {
    let mut svc = ServiceModel::new();
    svc.register_subscription(sub.to_string(), format!("pk-{}", tag));
    svc
}

#[test]
fn test_authentication() {
    let mut svc = service_with("test_user_123", "a");
    let user = identity("test_user_123", "a");
    let authenticated = authenticate(user, &mut svc).expect("authentication should succeed");
    assert!(authenticated.api_key_login().is_some());
}

#[test]
fn test_query_execution() {
    let mut svc = service_with("test_user_123", "a");
    let user = identity("test_user_123", "a");
    let sxt = authenticate(user, &mut svc).expect("authentication should succeed");
    let result = match sxt.execute_query("SELECT 1 as test", &mut svc) {
        Ok(QueryOutcome::Rows(rows)) => rows,
        other => panic!("expected rows, got {:?}", other.is_ok()),
    };
    assert!(!result.is_empty());
}

#[test]
fn credential_round_trip() {
    let id = identity("roundtrip_user", "rt");
    let text = credential_text(&id, None);
    let (loaded, token) = parse_credentials(&text).expect("rendered credentials should parse");
    assert_eq!(loaded.subscription_id, id.subscription_id);
    assert_eq!(loaded.keypair.private_key, id.keypair.private_key);
    assert_eq!(loaded.keypair.public_key, id.keypair.public_key);
    assert!(token.is_none());
}

#[test]
fn credential_round_trip_with_token() {
    let id = identity("token_user", "tk");
    let cached = "tok-token_user".to_string();
    let text = credential_text(&id, Some(&cached));
    let (loaded, token) = parse_credentials(&text).expect("rendered credentials should parse");
    assert_eq!(loaded.subscription_id, "token_user".to_string());
    assert_eq!(token, Some(cached));
}

#[test]
fn credential_text_is_line_per_field() {
    let id = identity("acct", "x");
    let text = credential_text(&id, None);
    assert_eq!(
        text,
        "SUBSCRIPTION_ID=acct\nPRIVATE_KEY=sk-x\nPUBLIC_KEY=pk-x\n"
    );
}

#[test]
fn persist_and_load_store() {
    // An in-memory store standing for a credential file.
    let id = identity("acct1", "s");
    let store_a: String = credential_text(&id, None);
    let (loaded, _) = parse_credentials(&store_a).expect("store A should parse");
    assert_eq!(loaded.subscription_id, "acct1".to_string());
}

#[test]
fn malformed_credentials_are_parse_errors() {
    assert_eq!(
        parse_credentials("not a credential file").err(),
        Some(SxtError::ParseError)
    );
    assert_eq!(
        parse_credentials("SUBSCRIPTION_ID=\nPRIVATE_KEY=a\nPUBLIC_KEY=b\n").err(),
        Some(SxtError::ParseError)
    );
    assert_eq!(
        parse_credentials("SUBSCRIPTION_ID=a\nPRIVATE_KEY=b\n").err(),
        Some(SxtError::ParseError)
    );
}

#[test]
fn empty_subscription_id_is_rejected() {
    let r = Identity::create(
        String::new(),
        KeypairSource::Provided { keypair: keypair("e") },
    );
    assert_eq!(r.err(), Some(SxtError::ConfigError));
}

#[test]
fn generated_keypair_is_deterministic_in_seed() {
    let kp = Keypair::generate(42);
    assert_eq!(kp.private_key, "sk-42".to_string());
    assert_eq!(kp.public_key, "pk-42".to_string());
    let kp0 = Keypair::generate(0);
    assert_eq!(kp0.private_key, "sk-0".to_string());
    let kp_big = Keypair::generate(1234567890);
    assert_eq!(kp_big.public_key, "pk-1234567890".to_string());
}

#[test]
fn create_user_and_save() {
    let new_user = Identity::create(
        "test_user_123".to_string(),
        KeypairSource::Generate { seed: 7 },
    )
    .expect("generated identity should be accepted");
    let saved = credential_text(&new_user, None);
    let (loaded, _) = parse_credentials(&saved).expect("saved credentials should parse");
    assert_eq!(loaded.subscription_id, "test_user_123".to_string());
    assert_eq!(loaded.keypair.public_key, "pk-7".to_string());
}

#[test]
fn unregistered_identity_fails_with_invalid_subscription() {
    let mut svc = ServiceModel::new();
    let fresh = identity("never_registered", "n");
    let r = authenticate(fresh, &mut svc);
    assert_eq!(
        r.err(),
        Some(SxtError::AuthError(AuthFailure::InvalidSubscription))
    );
}

#[test]
fn wrong_key_fails_with_invalid_signature() {
    let mut svc = service_with("someone", "right");
    let imposter = identity("someone", "wrong");
    let r = authenticate(imposter, &mut svc);
    assert_eq!(
        r.err(),
        Some(SxtError::AuthError(AuthFailure::InvalidSignature))
    );
}

#[test]
fn join_with_valid_code_registers_and_authenticates() {
    let mut svc = ServiceModel::new();
    svc.add_join_code("CODE-1".to_string());
    let user = identity("joiner", "j");
    let session = join_subscription(user, "CODE-1", &mut svc).expect("join should succeed");
    assert_eq!(session.subscription_id().as_str(), "joiner");
    // The code is one-time: a second join with it fails.
    let again = identity("joiner2", "j2");
    let r = join_subscription(again, "CODE-1", &mut svc);
    assert_eq!(
        r.err(),
        Some(SxtError::AuthError(AuthFailure::InvalidJoinCode))
    );
}

#[test]
fn join_with_unknown_code_fails() {
    let mut svc = ServiceModel::new();
    let user = identity("joiner", "j");
    let r = join_subscription(user, "NO-SUCH-CODE", &mut svc);
    assert_eq!(
        r.err(),
        Some(SxtError::AuthError(AuthFailure::InvalidJoinCode))
    );
}

#[test]
fn invalid_query_text_is_a_syntax_error_never_decode() {
    let mut svc = service_with("q", "q");
    let sxt = authenticate(identity("q", "q"), &mut svc).expect("authentication should succeed");
    assert_eq!(
        sxt.execute_query("DROP TABLE x", &mut svc).err(),
        Some(SxtError::QuerySyntaxError)
    );
    // Even when a decode shape is supplied, a syntactically invalid query
    // fails with the syntax error, not a decode error.
    let shape = vec![FieldKind::Integer];
    assert_eq!(
        sxt.execute_query_decoded("SELECT nonsense here", &shape, &mut svc)
            .err(),
        Some(SxtError::QuerySyntaxError)
    );
    assert_eq!(
        sxt.execute_query_decoded("", &shape, &mut svc).err(),
        Some(SxtError::QuerySyntaxError)
    );
}

#[test]
fn select_one_returns_one_row_with_value_one() {
    let mut svc = service_with("p7", "p");
    let sxt = authenticate(identity("p7", "p"), &mut svc).expect("authentication should succeed");
    let shape = vec![FieldKind::Integer];
    let rows = sxt
        .execute_query_decoded("SELECT 1", &shape, &mut svc)
        .expect("literal select should succeed");
    assert_eq!(rows.len(), 1);
    assert_eq!(rows[0].len(), 1);
    assert!(matches!(rows[0][0], CellValue::Integer(1)));
}

#[test]
fn stale_token_fails_with_auth_expired() {
    let mut svc = service_with("stale", "s");
    let sxt = authenticate(identity("stale", "s"), &mut svc)
        .expect("authentication should succeed");
    svc.expire_tokens();
    assert_eq!(
        sxt.execute_query("SELECT 1", &mut svc).err(),
        Some(SxtError::AuthExpired)
    );
}

fn table_for(svc: &mut ServiceModel, sub: &str, tag: &str) -> Table {
    svc.register_subscription(sub.to_string(), format!("pk-{}", tag));
    let session = authenticate(identity(sub, tag), svc).expect("authentication should succeed");
    Table::new(
        "demo_schema".to_string(),
        "demo_table".to_string(),
        None,
        session,
        TableAccessType::PublicRead,
    )
    .expect("descriptor names are usable")
}

#[test]
fn descriptor_rejects_bad_names() {
    let mut svc = ServiceModel::new();
    svc.register_subscription("t".to_string(), "pk-t".to_string());
    let session = authenticate(identity("t", "t"), &mut svc).expect("authentication");
    let r = Table::new(
        "bad schema".to_string(),
        "table".to_string(),
        None,
        session,
        TableAccessType::Private,
    );
    assert_eq!(r.err(), Some(SxtError::ConfigError));
}

#[test]
fn create_twice_fails_with_already_exists() {
    let mut svc = ServiceModel::new();
    let table = table_for(&mut svc, "creator", "c");
    table
        .create("id INT PRIMARY KEY, name VARCHAR", &mut svc)
        .expect("first creation should succeed");
    // The declared access travelled with the creation request.
    assert_eq!(svc.tables[0].access, TableAccessType::PublicRead);
    assert_eq!(
        table.create("id INT PRIMARY KEY, name VARCHAR", &mut svc).err(),
        Some(SxtError::AlreadyExists)
    );
}

#[test]
fn operations_on_missing_table_fail_at_the_service() {
    // The remote rejects a query naming a table it does not hold: the
    // remote-rejected-SQL kind, never a local failure.
    let mut svc = ServiceModel::new();
    let table = table_for(&mut svc, "ghost", "g");
    assert_eq!(
        table.insert("id", "(1)", &mut svc).err(),
        Some(SxtError::QuerySyntaxError)
    );
    assert_eq!(
        table.select("*", "", &mut svc).err(),
        Some(SxtError::QuerySyntaxError)
    );
    assert_eq!(
        table.delete("WHERE id = 1", &mut svc).err(),
        Some(SxtError::QuerySyntaxError)
    );
}

#[test]
fn malformed_values_fragment_is_a_remote_syntax_error() {
    let mut svc = ServiceModel::new();
    let table = table_for(&mut svc, "frag", "f");
    table.create("id INT", &mut svc).expect("creation");
    assert_eq!(
        table.insert("id", "1, 2", &mut svc).err(),
        Some(SxtError::QuerySyntaxError)
    );
    assert_eq!(
        table.insert("id", "(1,2)", &mut svc).err(),
        Some(SxtError::QuerySyntaxError)
    );
}

#[test]
fn select_after_insert_returns_the_inserted_rows_in_order() {
    let mut svc = ServiceModel::new();
    let table = table_for(&mut svc, "inserter", "i");
    table
        .create("id INT PRIMARY KEY, name VARCHAR, value DECIMAL", &mut svc)
        .expect("creation");
    let inserted = table
        .insert(
            "id, name, value",
            "(1, 'Test Record 1', 100.50), (2, 'Test Record 2', 200.75)",
            &mut svc,
        )
        .expect("insert should succeed");
    assert_eq!(inserted, 2);
    let rows = table.select("*", "", &mut svc).expect("select should succeed");
    assert_eq!(rows.len(), 2);
    assert_eq!(rows[0], vec!["1", "'Test Record 1'", "100.50"]);
    assert_eq!(rows[1], vec!["2", "'Test Record 2'", "200.75"]);
}

#[test]
fn empty_delete_clause_is_refused_without_a_call() {
    let mut svc = ServiceModel::new();
    let table = table_for(&mut svc, "careful", "d");
    table.create("id INT", &mut svc).expect("creation");
    table.insert("id", "(1), (2)", &mut svc).expect("insert");
    assert_eq!(table.delete("", &mut svc).err(), Some(SxtError::MissingPredicate));
    // Nothing was deleted and no state moved.
    let rows = table.select("*", "", &mut svc).expect("select");
    assert_eq!(rows.len(), 2);
}

#[test]
fn table_lifecycle_create_insert_select_delete() {
    let mut svc = ServiceModel::new();
    let table = table_for(&mut svc, "lifecycle", "l");
    table
        .create("id INT PRIMARY KEY, name VARCHAR", &mut svc)
        .expect("creation");
    let inserted = table
        .insert("id, name", "(1, 'first'), (2, 'second')", &mut svc)
        .expect("insert");
    assert_eq!(inserted, 2);
    let rows = table.select("*", "", &mut svc).expect("select all");
    assert_eq!(rows.len(), 2);
    let deleted = table.delete("WHERE id = 1", &mut svc).expect("delete");
    assert_eq!(deleted, 1);
    let rows = table.select("*", "", &mut svc).expect("select again");
    assert_eq!(rows.len(), 1);
    assert_eq!(rows[0][0], "2");
}

#[test]
fn select_carries_a_trailing_clause() {
    let mut svc = ServiceModel::new();
    let table = table_for(&mut svc, "ordered", "o");
    table.create("id INT", &mut svc).expect("creation");
    table.insert("id", "(3), (1), (2)", &mut svc).expect("insert");
    // The model returns rows in stored order whatever the clause says.
    let rows = table.select("*", "ORDER BY id", &mut svc).expect("select");
    assert_eq!(rows.len(), 3);
    assert_eq!(rows[0][0], "3");
}

#[test]
fn rows_decode_structurally() {
    let rows = vec![
        vec!["7".to_string(), "name".to_string()],
        vec!["8".to_string(), "other".to_string()],
    ];
    let shape = vec![FieldKind::Integer, FieldKind::Text];
    let decoded = decode_rows(&rows, &shape).expect("rows fit the shape");
    assert!(matches!(decoded[0][0], CellValue::Integer(7)));
    assert!(matches!(decoded[1][0], CellValue::Integer(8)));
    match &decoded[0][1] {
        CellValue::Text(t) => assert_eq!(t.as_str(), "name"),
        other => panic!("expected text, got {:?}", other),
    }
}

#[test]
fn row_that_misses_the_shape_is_a_decode_error() {
    let rows = vec![vec!["not-a-number".to_string()]];
    let shape = vec![FieldKind::Integer];
    assert_eq!(decode_rows(&rows, &shape).err(), Some(SxtError::DecodeError));
    let short = vec![vec!["1".to_string()]];
    let wide_shape = vec![FieldKind::Integer, FieldKind::Text];
    assert_eq!(
        decode_rows(&short, &wide_shape).err(),
        Some(SxtError::DecodeError)
    );
}

#[test]
fn overflowing_integer_cell_is_a_decode_error() {
    let rows = vec![vec!["99999999999999999999999999".to_string()]];
    let shape = vec![FieldKind::Integer];
    assert_eq!(decode_rows(&rows, &shape).err(), Some(SxtError::DecodeError));
}

#[test]
fn error_messages_name_their_cause() {
    assert_eq!(SxtError::MissingPredicate.message(), "delete requires a predicate");
    assert_eq!(
        SxtError::AuthError(AuthFailure::InvalidSubscription).message(),
        "unknown subscription"
    );
    assert_eq!(SxtError::IoError.message(), "credential store is unwritable");
}

#[test]
fn non_star_projection_is_rejected_by_the_grammar() {
    let mut svc = ServiceModel::new();
    let table = table_for(&mut svc, "projector", "pr");
    table.create("id INT", &mut svc).expect("creation");
    assert_eq!(
        table.select("id, name", "", &mut svc).err(),
        Some(SxtError::QuerySyntaxError)
    );
}

#[test]
fn literal_select_carries_its_digits() {
    let mut svc = service_with("lit", "l");
    let sxt = authenticate(identity("lit", "l"), &mut svc).expect("authentication");
    let rows = match sxt.execute_query("SELECT 12 as answer", &mut svc) {
        Ok(QueryOutcome::Rows(rows)) => rows,
        _ => panic!("expected rows"),
    };
    assert_eq!(rows, vec![vec!["12"]]);
}

#[test]
fn two_tables_live_side_by_side() {
    let mut svc = ServiceModel::new();
    svc.register_subscription("multi".to_string(), "pk-m".to_string());
    let s1 = authenticate(identity("multi", "m"), &mut svc).expect("authentication");
    let t1 = Table::new(
        "s".to_string(),
        "first".to_string(),
        None,
        s1,
        TableAccessType::Private,
    )
    .expect("descriptor");
    let s2 = authenticate(identity("multi", "m"), &mut svc).expect("authentication");
    let t2 = Table::new(
        "s".to_string(),
        "second".to_string(),
        None,
        s2,
        TableAccessType::PublicWrite,
    )
    .expect("descriptor");
    t1.create("id INT", &mut svc).expect("first table");
    t2.create("id INT", &mut svc).expect("second table");
    t1.insert("id", "(1)", &mut svc).expect("insert into first");
    let rows = t2.select("*", "", &mut svc).expect("select from second");
    assert!(rows.is_empty());
}


#[test]
fn table_keypair_is_fresh_when_none_is_supplied() {
    let mut svc = ServiceModel::new();
    svc.register_subscription("owner".to_string(), "pk-o".to_string());
    let s1 = authenticate(identity("owner", "o"), &mut svc).expect("authentication");
    let fresh = Table::new(
        "s".to_string(),
        "t".to_string(),
        None,
        s1,
        TableAccessType::Private,
    )
    .expect("descriptor");
    assert_eq!(fresh.table_keypair.private_key, "sk-s.t".to_string());
    assert_eq!(fresh.table_keypair.public_key, "pk-s.t".to_string());
    let s2 = authenticate(identity("owner", "o"), &mut svc).expect("authentication");
    let own = Table::new(
        "s".to_string(),
        "t".to_string(),
        Some(keypair("mine")),
        s2,
        TableAccessType::Private,
    )
    .expect("descriptor");
    assert_eq!(own.table_keypair.public_key, "pk-mine".to_string());
}

#[test]
fn extra_trailing_cells_are_ignored_when_decoding() {
    // Rows wider than the requested shape keep decoding: additions to the
    // response schema are tolerated, never a decode error.
    let rows = vec![vec![
        "7".to_string(),
        "name".to_string(),
        "a new field".to_string(),
    ]];
    let shape = vec![FieldKind::Integer, FieldKind::Text];
    let decoded = decode_rows(&rows, &shape).expect("wider rows fit the shape");
    assert_eq!(decoded[0].len(), 2);
    assert!(matches!(decoded[0][0], CellValue::Integer(7)));
}

#[test]
fn select_decodes_rows_wider_than_the_shape() {
    let mut svc = ServiceModel::new();
    let table = table_for(&mut svc, "wide", "w");
    table.create("id INT, name VARCHAR, note VARCHAR", &mut svc).expect("creation");
    table
        .insert("id, name, note", "(1, 'first', 'extra'), (2, 'second', 'extra')", &mut svc)
        .expect("insert");
    let rows = table.select("*", "", &mut svc).expect("select");
    // The caller asks for two fields; the third cell of each row is ignored.
    let shape = vec![FieldKind::Integer, FieldKind::Text];
    let decoded = decode_rows(&rows, &shape).expect("rows are wider than the shape");
    assert_eq!(decoded.len(), 2);
    assert_eq!(decoded[0].len(), 2);
    assert!(matches!(decoded[1][0], CellValue::Integer(2)));
}
