use worksteal::builder::{ConnectionBuilder, HttpRequestBuilder};
use worksteal::lifecycle::{Connection, ConnectionState, Document, Draft};
use worksteal::orders::{CustomerId, Order, OrderId, OrderItem, ProductId};
use worksteal::users::{DatabaseError, User, UserDatabase};

#[test]
fn request_builder_assembles_every_part() {
    let request = HttpRequestBuilder::new()
        .method("GET")
        .url("https://api.example.com/users")
        .header("Accept", "application/json")
        .timeout(10)
        .build()
        .expect("a complete builder must succeed");
    assert_eq!(request.method, "GET");
    assert_eq!(request.url, "https://api.example.com/users");
    assert_eq!(request.headers.len(), 1);
    assert_eq!(request.headers[0].0, "Accept");
    assert_eq!(request.headers[0].1, "application/json");
    assert_eq!(request.body, None);
    assert_eq!(request.timeout_secs, 10);
}

#[test]
fn request_builder_requires_method_then_url() {
    let no_method = HttpRequestBuilder::new().url("https://example.com").build();
    assert_eq!(no_method.err(), Some("method is required"));
    let no_url = HttpRequestBuilder::new().method("POST").build();
    assert_eq!(no_url.err(), Some("url is required"));
}

#[test]
fn request_builder_defaults_the_timeout() {
    let request = HttpRequestBuilder::new()
        .method("PUT")
        .url("https://example.com")
        .body("{}")
        .build()
        .unwrap();
    assert_eq!(request.timeout_secs, 30);
    assert_eq!(request.body.as_deref(), Some("{}"));
}

#[test]
fn connection_builder_walks_the_typestates() {
    let connection = ConnectionBuilder::new()
        .host("localhost")
        .port(5432)
        .use_tls(true)
        .pool_size(20)
        .build();
    assert_eq!(connection.host, "localhost");
    assert_eq!(connection.port, 5432);
    assert!(connection.use_tls);
    assert_eq!(connection.pool_size, 20);
}

#[test]
fn connection_builder_defaults() {
    let connection = ConnectionBuilder::new().host("db").port(1).build();
    assert!(!connection.use_tls);
    assert_eq!(connection.pool_size, 10);
}

#[test]
fn document_workflow_approval_path() {
    let mut doc = Document::<Draft>::new("Initial content");
    assert_eq!(doc.content(), "Initial content");
    doc.edit("Updated content");
    assert_eq!(doc.content(), "Updated content");
    let pending = doc.submit_for_review();
    let approved = pending.approve();
    assert_eq!(approved.publish(), "Updated content");
}

#[test]
fn document_workflow_rejection_path() {
    let doc = Document::<Draft>::new("Bad content");
    let rejected = doc.submit_for_review().reject("Needs more detail");
    let mut revised = rejected.revise();
    assert_eq!(revised.content(), "Bad content");
    revised.edit("Better content");
    let approved = revised.submit_for_review().approve();
    assert_eq!(approved.publish(), "Better content");
}

#[test]
fn connection_state_machine_transitions() {
    let mut conn = Connection::new();
    assert!(matches!(conn.state(), ConnectionState::Disconnected));
    conn.connect();
    assert!(matches!(conn.state(), ConnectionState::Connecting { attempt: 1 }));
    conn.connect();
    assert!(matches!(conn.state(), ConnectionState::Connecting { attempt: 2 }));
    conn.on_success("sess_abc123");
    match conn.state() {
        ConnectionState::Connected { session_id } => assert_eq!(session_id, "sess_abc123"),
        other => panic!("expected a connected state, found {:?}", other),
    }
    // A success report outside of connecting changes nothing.
    conn.on_success("sess_other");
    match conn.state() {
        ConnectionState::Connected { session_id } => assert_eq!(session_id, "sess_abc123"),
        other => panic!("expected a connected state, found {:?}", other),
    }
    conn.disconnect();
    assert!(matches!(conn.state(), ConnectionState::Disconnected));
    conn.connect();
    conn.on_failure("Network timeout");
    match conn.state() {
        ConnectionState::Failed { error } => assert_eq!(error, "Network timeout"),
        other => panic!("expected a failed state, found {:?}", other),
    }
    conn.connect();
    assert!(matches!(conn.state(), ConnectionState::Connecting { attempt: 1 }));
}

#[test]
fn order_total_sums_its_lines() {
    let mut order = Order::new(OrderId(1001), CustomerId(42));
    order.add_item(OrderItem::new(ProductId(101), 2, 2999));
    order.add_item(OrderItem::new(ProductId(102), 1, 4999));
    assert_eq!(order.total(), 10997);
    assert_eq!(OrderItem::new(ProductId(101), 2, 2999).total(), 5998);
}

#[test]
fn order_lifecycle_ship_cancel_deliver() {
    let mut order = Order::new(OrderId(1001), CustomerId(42));
    order.add_item(OrderItem::new(ProductId(101), 2, 2999));
    assert_eq!(order.status_description(), "Pending");
    assert_eq!(order.tracking_number(), None);

    order
        .ship("FedEx".to_string(), "FX123456789".to_string(), 1000)
        .expect("a pending order ships");
    assert_eq!(
        order.status_description(),
        "Shipped via FedEx (FX123456789)"
    );
    assert_eq!(order.tracking_number(), Some("FX123456789"));

    assert_eq!(
        order.cancel("Changed my mind".to_string()),
        Err("Cannot cancel shipped orders")
    );

    order
        .deliver(Some("John Doe".to_string()), 2000)
        .expect("a shipped order delivers");
    assert_eq!(order.status_description(), "Delivered (signed by John Doe)");
    assert_eq!(order.tracking_number(), Some("FX123456789"));
    assert_eq!(
        order.cancel("Too late".to_string()),
        Err("Cannot cancel delivered orders")
    );
}

#[test]
fn order_cancellation_and_refusals() {
    let mut order = Order::new(OrderId(1002), CustomerId(42));
    order.add_item(OrderItem::new(ProductId(103), 1, 9999));
    assert_eq!(order.deliver(None, 5), Err("Can only deliver shipped orders"));
    order.cancel("Out of stock".to_string()).expect("a pending order cancels");
    assert_eq!(order.status_description(), "Cancelled: Out of stock");
    assert_eq!(
        order.cancel("Again".to_string()),
        Err("Order already cancelled")
    );
    assert_eq!(
        order.ship("DHL".to_string(), "X".to_string(), 9),
        Err("Can only ship pending orders")
    );
    assert_eq!(order.tracking_number(), None);
}

#[test]
fn delivered_without_signature_reads_plainly() {
    let mut order = Order::new(OrderId(7), CustomerId(8));
    order.ship("UPS".to_string(), "1Z".to_string(), 1).unwrap();
    order.deliver(None, 2).unwrap();
    assert_eq!(order.status_description(), "Delivered");
}

fn seeded_database() -> UserDatabase {
    let mut db = UserDatabase::new();
    db.add_user(User {
        id: 1,
        username: "alice".to_string(),
        email: Some("alice@example.com".to_string()),
    })
    .unwrap();
    db.add_user(User { id: 2, username: "bob".to_string(), email: None }).unwrap();
    db.add_user(User {
        id: 3,
        username: "charlie".to_string(),
        email: Some("charlie@example.com".to_string()),
    })
    .unwrap();
    db
}

#[test]
fn users_are_stored_and_found_by_id() {
    let db = seeded_database();
    let alice = db.get_user(1).expect("user 1 is stored");
    assert_eq!(alice.username, "alice");
    assert!(db.get_user(999).is_none());
    assert!(db.get_user_or_error(2).is_ok());
    assert!(matches!(
        db.get_user_or_error(999),
        Err(DatabaseError::NotFound)
    ));
}

#[test]
fn duplicate_ids_and_empty_usernames_are_refused() {
    let mut db = seeded_database();
    let duplicate = User { id: 1, username: "duplicate".to_string(), email: None };
    assert!(matches!(db.add_user(duplicate), Err(DatabaseError::DuplicateId)));
    let nameless = User { id: 9, username: String::new(), email: None };
    match db.add_user(nameless) {
        Err(DatabaseError::InvalidData(m)) => assert_eq!(m, "Username cannot be empty"),
        other => panic!("expected invalid data, found {:?}", other),
    }
    assert!(db.get_user(9).is_none());
}

#[test]
fn users_are_found_by_name_and_email() {
    let db = seeded_database();
    let bob = db.find_by_username("bob").expect("bob is stored");
    assert_eq!(bob.id, 2);
    assert!(db.find_by_username("nobody").is_none());
    assert_eq!(db.get_user_email(1), Some("alice@example.com"));
    assert_eq!(db.get_user_email(2), None);
    assert_eq!(db.get_user_email(999), None);
}

#[test]
fn fetching_an_email_names_each_failure() {
    let db = seeded_database();
    assert_eq!(
        worksteal::users::fetch_user_email(&db, 1).unwrap(),
        "alice@example.com"
    );
    match worksteal::users::fetch_user_email(&db, 2) {
        Err(DatabaseError::InvalidData(m)) => assert_eq!(m, "No email set"),
        other => panic!("expected invalid data, found {:?}", other),
    }
    assert!(matches!(
        worksteal::users::fetch_user_email(&db, 999),
        Err(DatabaseError::NotFound)
    ));
}
