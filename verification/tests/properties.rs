use easy_table::Builder;

type ByteAccessor = fn(&u8) -> Result<String, String>;

struct Pair {
    left: String,
    right: String,
}

fn get_left(p: &Pair) -> Result<String, String> {
    Ok(p.left.clone())
}

fn get_right(p: &Pair) -> Result<String, String> {
    Ok(p.right.clone())
}

fn itself(r: &String) -> Result<String, String> {
    Ok(r.clone())
}

fn small_only(r: &u8) -> Result<String, String> {
    if *r < 10 {
        Ok(format!("{}", r))
    } else {
        Err("left".to_string())
    }
}

fn zero_only(r: &u8) -> Result<String, String> {
    if *r == 0 {
        Ok(format!("{}", r))
    } else {
        Err("right".to_string())
    }
}

#[test]
fn run_twice_yields_identical_text() {
    let mut b = Builder::<String, fn(&String) -> Result<String, String>>::new();
    b.column("word", itself);
    b.row("alpha".to_string());
    b.row("beta".to_string());

    let first = b.run().unwrap();
    let second = b.run().unwrap();

    assert_eq!(first, "word\nalpha\nbeta");
    assert_eq!(first, second);
}

#[test]
fn output_order_follows_registration_order() {
    let mut b = Builder::new();
    b.column("left", get_left as fn(&Pair) -> Result<String, String>);
    b.row(Pair { left: "xyz".to_string(), right: "abc".to_string() });
    b.column("right", get_right);
    b.row(Pair { left: "123".to_string(), right: "456".to_string() });

    assert_eq!(b.run().unwrap(), "left,right\nxyz,abc\n123,456");
}

#[test]
fn chained_calls_equal_unchained_calls() {
    let chained = Builder::<String, fn(&String) -> Result<String, String>>::new()
        .column("a", itself)
        .column("b", itself)
        .row("z".to_string())
        .run()
        .unwrap();

    let mut unchained = Builder::<String, fn(&String) -> Result<String, String>>::new();
    unchained.column("a", itself);
    unchained.column("b", itself);
    unchained.row("z".to_string());

    assert_eq!(chained, unchained.run().unwrap());
    assert_eq!(chained, "a,b\nz,z");
}

#[test]
fn accessor_failure_reaches_the_run_caller() {
    let mut b = Builder::<u8, ByteAccessor>::new();
    b.column("n", small_only);
    b.row(4);
    b.row(200);

    assert_eq!(b.run(), Err("left".to_string()));
}

#[test]
fn first_failure_in_rendering_order_is_reported() {
    let mut b = Builder::<u8, ByteAccessor>::new();
    b.column("small", small_only);
    b.column("zero", zero_only);
    b.row(5);
    b.row(20);

    assert_eq!(b.run(), Err("right".to_string()));
}

#[test]
fn field_values_are_not_escaped() {
    let mut b = Builder::<String, fn(&String) -> Result<String, String>>::new();
    b.column("raw", itself);
    b.row("a,b".to_string());
    b.row("c\nd".to_string());

    assert_eq!(b.run().unwrap(), "raw\na,b\nc\nd");
}

#[test]
fn rows_without_columns_render_blank_lines() {
    let mut b = Builder::<u8, ByteAccessor>::new();
    b.row(1);
    b.row(2);

    assert_eq!(b.run().unwrap(), "\n\n");
}
