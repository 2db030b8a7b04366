use dataframe::column::{promote, Column};
use dataframe::data::{Data, Error, FloatVal, Kind};
use dataframe::dataframe::DataFrame;
use dataframe::series::Series;

fn int_column(name: &str, values: Vec<i64>) -> Column {
    Column::Int(Series::new(String::from(name), values))
}

fn float_column(name: &str, texts: Vec<&str>) -> Column {
    let mut data: Vec<FloatVal> = Vec::new();
    for t in texts {
        data.push(FloatVal::new(String::from(t)).unwrap());
    }
    Column::Float(Series::new(String::from(name), data))
}

fn text_column(name: &str, texts: Vec<&str>) -> Column {
    let mut data: Vec<String> = Vec::new();
    for t in texts {
        data.push(String::from(t));
    }
    Column::Text(Series::new(String::from(name), data))
}

fn sample_frame() -> DataFrame {
    let mut df = DataFrame::new();
    df.add_column(int_column("col_a", vec![1, 2, 3])).unwrap();
    df.add_column(float_column("col_b", vec!["5.1234", "2.9999", "3.9"])).unwrap();
    df.add_column(text_column("col_c", vec!["Hello", "World", "!"])).unwrap();
    df
}

#[test]
fn scenario_render() {
    let df = sample_frame();
    let rendered = df.pretty_string(",", Some(0), None);
    assert_eq!(
        rendered,
        "col_a,col_b,col_c\n1,5.1234,Hello\n2,2.9999,World\n3,3.9,!\n"
    );
}

#[test]
fn round_trip_through_text() {
    let df = sample_frame();
    let rendered = df.pretty_string(",", Some(0), None);
    let df2 = DataFrame::from_text(&rendered, ",").unwrap();
    assert_eq!(df2.num_cols, 3);
    assert_eq!(df2.num_rows, 3);
    assert_eq!(df2.columns[0].name(), "col_a");
    assert_eq!(df2.columns[1].name(), "col_b");
    assert_eq!(df2.columns[2].name(), "col_c");
    assert!(df2.columns[0].is_int());
    assert!(df2.columns[1].is_float());
    assert!(df2.columns[2].is_text());
    let rendered2 = df2.pretty_string(",", Some(0), None);
    assert_eq!(rendered, rendered2);
}

#[test]
fn promotion_all_ints() {
    let col = promote(text_column("c", vec!["1", "2", "3"]));
    assert!(col.is_int());
    assert_eq!(col.data_to_vector_string(), vec!["1", "2", "3"]);
}

#[test]
fn promotion_mixed_numeric() {
    let col = promote(text_column("c", vec!["1", "2.5", "3"]));
    assert!(col.is_float());
    assert_eq!(col.data_to_vector_string(), vec!["1", "2.5", "3"]);
}

#[test]
fn promotion_non_numeric_stays_text() {
    let col = promote(text_column("c", vec!["1", "x", "3"]));
    assert!(col.is_text());
    assert_eq!(col.data_to_vector_string(), vec!["1", "x", "3"]);
}

#[test]
fn all_or_nothing_int_cast() {
    let series = Series::new(
        String::from("c"),
        vec![String::from("1"), String::from("2"), String::from("oops")],
    );
    let result = series.into_int();
    assert!(matches!(
        result,
        Err(Error::ParseError { ref text, kind: Kind::Int }) if text == "oops"
    ));
    // the original Text series is untouched and still usable
    assert_eq!(series.len(), 3);
    assert_eq!(series.data_to_vector_string(), vec!["1", "2", "oops"]);
}

#[test]
fn append_length_mismatch() {
    let mut df = DataFrame::new();
    df.add_column(int_column("a", vec![1, 2, 3])).unwrap();
    let result = df.add_column(int_column("b", vec![1, 2]));
    assert!(matches!(result, Err(Error::LengthMismatch)));
    assert_eq!(df.num_cols, 1);
    assert_eq!(df.columns.len(), 1);
}

#[test]
fn append_duplicate_name() {
    let mut df = DataFrame::new();
    df.add_column(int_column("a", vec![1, 2, 3])).unwrap();
    let result = df.add_column(int_column("a", vec![4, 5, 6]));
    assert!(matches!(result, Err(Error::DuplicateName)));
    assert_eq!(df.num_cols, 1);
}

#[test]
fn lookup_by_name() {
    let df = sample_frame();
    let col = df.get_column("col_b").unwrap();
    assert_eq!(col.name(), "col_b");
    assert!(col.is_float());
    assert!(matches!(df.get_column("col_d"), Err(Error::ColumnNotFound)));
    // lookup is exact: a case-mismatched name is not found
    assert!(matches!(df.get_column("COL_B"), Err(Error::ColumnNotFound)));
}

#[test]
fn erased_insert_checks_kind() {
    let mut col = int_column("a", vec![1]);
    assert!(col.add_value(Data::Int(2)).is_ok());
    assert_eq!(col.len(), 2);
    let result = col.add_value(Data::Text(String::from("x")));
    assert!(matches!(result, Err(Error::TypeMismatch)));
    assert_eq!(col.len(), 2);
}

#[test]
fn float_to_int_cast_refused() {
    let col = float_column("f", vec!["1.5"]);
    assert!(matches!(col.into_int(), Err(Error::InvalidCast)));
}

#[test]
fn int_to_float_cast_widens() {
    let col = int_column("a", vec![7, -3]);
    let as_float = col.into_float().unwrap();
    assert!(as_float.is_float());
    assert_eq!(as_float.data_to_vector_string(), vec!["7", "-3"]);
}

#[test]
fn cast_to_text_always_succeeds() {
    let col = int_column("a", vec![10, -20]).into_text();
    assert!(col.is_text());
    assert_eq!(col.data_to_vector_string(), vec!["10", "-20"]);
    let col = float_column("f", vec!["1.25"]).into_text();
    assert!(col.is_text());
    assert_eq!(col.data_to_vector_string(), vec!["1.25"]);
}

#[test]
fn row_shape_error() {
    let result = DataFrame::from_text("a,b\n1,2\n3\n", ",");
    assert!(matches!(result, Err(Error::RowShapeError)));
}

#[test]
fn duplicate_header_error() {
    let result = DataFrame::from_text("a,a\n1,2\n", ",");
    assert!(matches!(result, Err(Error::DuplicateName)));
}

#[test]
fn ingest_promotes_each_column() {
    let df = DataFrame::from_text("x,y,z\n1,1.5,u\n2,2,v\n", ",").unwrap();
    assert!(df.columns[0].is_int());
    assert!(df.columns[1].is_float());
    assert!(df.columns[2].is_text());
    assert_eq!(df.num_rows, 2);
}

#[test]
fn parse_int_edges() {
    assert_eq!(dataframe::text::parse_int("007"), Some(7));
    assert_eq!(dataframe::text::parse_int("+5"), Some(5));
    assert_eq!(dataframe::text::parse_int("-9223372036854775808"), Some(i64::MIN));
    assert_eq!(dataframe::text::parse_int("9223372036854775807"), Some(i64::MAX));
    assert_eq!(dataframe::text::parse_int("9223372036854775808"), None);
    assert_eq!(dataframe::text::parse_int(""), None);
    assert_eq!(dataframe::text::parse_int("-"), None);
    assert_eq!(dataframe::text::parse_int("12a"), None);
    assert_eq!(dataframe::text::parse_int("1.5"), None);
}

#[test]
fn render_int_edges() {
    assert_eq!(dataframe::text::render_int(0), "0");
    assert_eq!(dataframe::text::render_int(-1), "-1");
    assert_eq!(dataframe::text::render_int(i64::MIN), "-9223372036854775808");
    assert_eq!(dataframe::text::render_int(i64::MAX), "9223372036854775807");
}

#[test]
fn parse_int_agrees_with_std() {
    let samples = [
        "0", "42", "-42", "+17", "007", "", "-", "+", "1.5", "1e3", "abc",
        "9223372036854775807", "-9223372036854775808", "9223372036854775808",
        "-9223372036854775809", "99999999999999999999999999",
    ];
    for s in samples {
        assert_eq!(dataframe::text::parse_int(s), s.parse::<i64>().ok(), "on {:?}", s);
    }
}

#[test]
fn float_grammar_agrees_with_std() {
    let samples = [
        "0", "2.5", ".5", "5.", "-1.5", "+2.0", "1e3", "1E-3", "-1.5e+7", "2.5e2",
        "inf", "-inf", "INF", "Infinity", "-infinity", "NaN", "nan", "-NaN",
        "", ".", "e3", "1e", "1e+", "1.2.3", "1.5f", "abc", "--1", "1 ", " 1",
        "0x10", "1_000", "5.1234", "2.9999", "3.9",
    ];
    for s in samples {
        assert_eq!(
            dataframe::text::check_float_text(s),
            s.parse::<f64>().is_ok(),
            "on {:?}",
            s
        );
    }
}

#[test]
fn float_value_keeps_its_text() {
    let v = FloatVal::new(String::from("2.5000")).unwrap();
    assert_eq!(v.to_text(), "2.5000");
    assert!(matches!(
        FloatVal::new(String::from("ten")),
        Err(Error::ParseError { kind: Kind::Float, .. })
    ));
}

#[test]
fn pretty_string_pads_and_truncates() {
    let mut df = DataFrame::new();
    df.add_column(int_column("ab", vec![1, 22, 333])).unwrap();
    let rendered = df.pretty_string(",", Some(4), Some(1));
    assert_eq!(rendered, "  ab\n   1\n... (2 rows skipped)\n");
    let rendered = df.pretty_string(",", Some(4), None);
    assert_eq!(rendered, "  ab\n   1\n  22\n 333\n");
}

#[test]
fn set_index_requires_existing_column() {
    let mut df = sample_frame();
    assert!(df.set_index("col_a").is_ok());
    assert_eq!(df.index.as_deref(), Some("col_a"));
    assert!(matches!(df.set_index("nope"), Err(Error::ColumnNotFound)));
}

#[test]
fn erased_extraction() {
    let df = sample_frame();
    let values = df.get_column_data("col_a").unwrap();
    assert_eq!(values.len(), 3);
    assert!(matches!(values[0], Data::Int(1)));
    assert!(matches!(values[2], Data::Int(3)));
    let copies = df.get_column_data_copy("col_c").unwrap();
    assert!(matches!(copies[0], Data::Text(ref t) if t == "Hello"));
    assert!(matches!(df.get_column_data("missing"), Err(Error::ColumnNotFound)));
}

#[test]
fn series_basics() {
    let mut s = Series::new(String::from("n"), vec![1i64, 2]);
    assert_eq!(s.len(), 2);
    assert!(!s.is_empty());
    assert_eq!(s.name(), "n");
    s.add_value(3);
    assert_eq!(s.data_ref(), &vec![1, 2, 3]);
    let empty: Series<String> = Series::new(String::from("e"), Vec::new());
    assert!(empty.is_empty());
}

#[test]
fn ingest_renders_ints_canonically() {
    let df = DataFrame::from_text("a\n+5\n007\n-0\n", ",").unwrap();
    assert!(df.columns[0].is_int());
    assert_eq!(df.columns[0].data_to_vector_string(), vec!["5", "7", "0"]);
}

#[test]
fn pretty_string_default_width() {
    let mut df = DataFrame::new();
    df.add_column(int_column("ab", vec![1])).unwrap();
    assert_eq!(df.pretty_string(",", None, None), "        ab\n         1\n");
}

#[test]
fn ingest_header_only() {
    let df = DataFrame::from_text("a,b\n", ",").unwrap();
    assert_eq!(df.num_cols, 2);
    assert_eq!(df.num_rows, 0);
    assert!(df.columns[0].is_int());
}

#[test]
fn empty_text_column_round_trips_as_int() {
    // an empty column has every (vacuously) cell parse as an integer,
    // so ingestion promotes it to Int
    let col = promote(text_column("c", vec![]));
    assert!(col.is_int());
    assert!(col.is_empty());
}
