use easy_table::Builder;

type StringAccessor = fn(&String) -> Result<String, String>;

fn no_value(_r: &String) -> Result<String, String> {
    Ok(String::new())
}

struct Object {
    foo: String,
    bar: String,
}

fn get_foo(o: &Object) -> Result<String, String> {
    Ok(o.foo.clone())
}

fn get_bar(o: &Object) -> Result<String, String> {
    Ok(o.bar.clone())
}

#[test]
fn it_returns_an_empty_string() {
    assert!(Builder::<String, StringAccessor>::new().run().unwrap() == "");
}

#[test]
fn it_returns_a_string_with_column_names() {
    let ret = Builder::<String, StringAccessor>::new()
        .column("foo", no_value)
        .column("bar", no_value)
        .run()
        .unwrap();

    assert_eq!(ret, "foo,bar");
}

#[test]
fn it_returns_a_string_with_column_name_and_row_info() {
    let obj_1 = Object { foo: "xyz".to_string(), bar: "abc".to_string() };
    let obj_2 = Object { foo: "123".to_string(), bar: "456".to_string() };

    let ret = Builder::new()
        .column("foo", get_foo as fn(&Object) -> Result<String, String>)
        .column("bar", get_bar)
        .row(obj_1)
        .row(obj_2)
        .run()
        .unwrap();

    assert_eq!(ret, "foo,bar\nxyz,abc\n123,456");
}
