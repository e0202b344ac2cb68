use postgresql_rust::cmd::{Cmd, Method};

#[test]
fn query_without_columns_selects_all() {
    let mut cmd = Cmd::build(Method::Query);
    cmd.set_table("customer");
    assert_eq!(cmd.query_execution(), "SELECT * FROM customer ");
}

#[test]
fn query_with_columns_and_condition() {
    let mut cmd = Cmd::build(Method::Query);
    cmd.set_table("test")
        .set_columns(vec!["first_name", "last_name"])
        .set_condition("order by first_name limit 10");
    assert_eq!(
        cmd.query_execution(),
        "SELECT first_name,last_name FROM test order by first_name limit 10"
    );
    assert_eq!(cmd.method, Method::Query);
}

#[test]
fn insert_quotes_each_value() {
    let mut cmd = Cmd::build(Method::Insert);
    cmd.set_table("customer")
        .set_columns(vec!["first_name", "last_name"])
        .set_values(vec!["berry", "lin"]);
    assert_eq!(
        cmd.insert_execution(),
        "INSERT INTO customer(first_name,last_name) values('berry','lin')"
    );
}

#[test]
fn insert_with_nothing_set() {
    let cmd = Cmd::build(Method::Insert);
    assert_eq!(cmd.insert_execution(), "INSERT INTO (*) values()");
}

#[test]
fn delete_with_condition() {
    let mut cmd = Cmd::build(Method::Delete);
    cmd.set_table("customer").set_condition("where id = 3");
    assert_eq!(cmd.delete_execution(), "DELETE FROM customer where id = 3");
}

#[test]
fn delete_without_condition() {
    let mut cmd = Cmd::build(Method::Delete);
    cmd.set_table("customer");
    assert_eq!(cmd.delete_execution(), "DELETE FROM customer ");
}

#[test]
fn built_update_sets_nothing_since_the_count_stays_zero() {
    // set_columns and set_values leave the recorded column count at zero
    let mut cmd = Cmd::build(Method::Update);
    cmd.set_table("customer")
        .set_columns(vec!["first_name", "last_name"])
        .set_values(vec!["berry", "lin"])
        .set_condition("where first_name = 'Berry'");
    assert!(cmd.update_fits());
    assert_eq!(
        cmd.update_execution(),
        "UPDATE customer SET  where first_name = 'Berry'"
    );
}

#[test]
fn setters_replace_earlier_values() {
    let mut cmd = Cmd::build(Method::Query);
    cmd.set_table("a").set_table("b");
    cmd.set_columns(vec!["x", "y", "z"]).set_columns(vec!["w"]);
    cmd.set_condition("c1").set_condition("c2");
    assert_eq!(cmd.query_execution(), "SELECT w FROM b c2");
}

#[test]
fn non_ascii_text_is_kept() {
    let mut cmd = Cmd::build(Method::Insert);
    cmd.set_table("clients")
        .set_columns(vec!["nom"])
        .set_values(vec!["Zoë"]);
    assert_eq!(cmd.insert_execution(), "INSERT INTO clients(nom) values('Zoë')");
}
