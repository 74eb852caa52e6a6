use turbo_mysql_core::pool::create_pool;

#[test]
fn a_well_formed_url_creates_a_pool() {
    let pool = create_pool("mysql://user:pw@localhost:3306/db");
    assert!(pool.is_some());
}

#[test]
fn a_malformed_url_creates_nothing() {
    assert!(create_pool("not a url").is_none());
    assert!(create_pool("").is_none());
}
