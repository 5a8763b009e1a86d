use std::io;

use serde_json::ser::{CompactFormatter, Formatter, PrettyFormatter};
use v8json::decision::NumberToken;

// The compact policy: serde_json's compact formatter with the two numeric
// callbacks routed through the verified decision rule.
struct CompactPolicy;

impl Formatter for CompactPolicy {
    fn write_f32<W: ?Sized>(&mut self, writer: &mut W, value: f32) -> io::Result<()>
    where
        W: io::Write,
    {
        match v8json::decision::decide_single_bits(value.to_bits()) {
            NumberToken::Int(n) => CompactFormatter.write_i64(writer, n),
            NumberToken::Float => CompactFormatter.write_f64(writer, value as f64),
        }
    }

    fn write_f64<W: ?Sized>(&mut self, writer: &mut W, value: f64) -> io::Result<()>
    where
        W: io::Write,
    {
        match v8json::decision::decide_double_bits(value.to_bits()) {
            NumberToken::Int(n) => CompactFormatter.write_i64(writer, n),
            NumberToken::Float => CompactFormatter.write_f64(writer, value),
        }
    }
}

// The pretty policy: an indent-aware base formatter, the numeric callbacks
// routed through the verified decision rule, everything else forwarded.
struct PrettyPolicy<'a> {
    inner: PrettyFormatter<'a>,
}

impl<'a> PrettyPolicy<'a> {
    fn new() -> Self {
        PrettyPolicy { inner: PrettyFormatter::new() }
    }

    fn with_indent(indent: &'a [u8]) -> Self {
        PrettyPolicy { inner: PrettyFormatter::with_indent(indent) }
    }
}

impl<'a> Formatter for PrettyPolicy<'a> {
    fn write_f32<W: ?Sized>(&mut self, writer: &mut W, value: f32) -> io::Result<()>
    where
        W: io::Write,
    {
        match v8json::decision::decide_single_bits(value.to_bits()) {
            NumberToken::Int(n) => self.inner.write_i64(writer, n),
            NumberToken::Float => self.inner.write_f64(writer, value as f64),
        }
    }

    fn write_f64<W: ?Sized>(&mut self, writer: &mut W, value: f64) -> io::Result<()>
    where
        W: io::Write,
    {
        match v8json::decision::decide_double_bits(value.to_bits()) {
            NumberToken::Int(n) => self.inner.write_i64(writer, n),
            NumberToken::Float => self.inner.write_f64(writer, value),
        }
    }

    fn begin_array<W: ?Sized>(&mut self, writer: &mut W) -> io::Result<()>
    where
        W: io::Write,
    {
        self.inner.begin_array(writer)
    }

    fn end_array<W: ?Sized>(&mut self, writer: &mut W) -> io::Result<()>
    where
        W: io::Write,
    {
        self.inner.end_array(writer)
    }

    fn begin_array_value<W: ?Sized>(&mut self, writer: &mut W, first: bool) -> io::Result<()>
    where
        W: io::Write,
    {
        self.inner.begin_array_value(writer, first)
    }

    fn end_array_value<W: ?Sized>(&mut self, writer: &mut W) -> io::Result<()>
    where
        W: io::Write,
    {
        self.inner.end_array_value(writer)
    }

    fn begin_object<W: ?Sized>(&mut self, writer: &mut W) -> io::Result<()>
    where
        W: io::Write,
    {
        self.inner.begin_object(writer)
    }

    fn end_object<W: ?Sized>(&mut self, writer: &mut W) -> io::Result<()>
    where
        W: io::Write,
    {
        self.inner.end_object(writer)
    }

    fn begin_object_key<W: ?Sized>(&mut self, writer: &mut W, first: bool) -> io::Result<()>
    where
        W: io::Write,
    {
        self.inner.begin_object_key(writer, first)
    }

    fn begin_object_value<W: ?Sized>(&mut self, writer: &mut W) -> io::Result<()>
    where
        W: io::Write,
    {
        self.inner.begin_object_value(writer)
    }

    fn end_object_value<W: ?Sized>(&mut self, writer: &mut W) -> io::Result<()>
    where
        W: io::Write,
    {
        self.inner.end_object_value(writer)
    }
}

fn compact<T: serde::Serialize>(value: &T) -> Vec<u8> {
    let mut out: Vec<u8> = Vec::new();
    let mut ser = serde_json::Serializer::with_formatter(&mut out, CompactPolicy);
    value.serialize(&mut ser).unwrap();
    out
}

fn pretty<T: serde::Serialize>(value: &T) -> Vec<u8> {
    let mut out: Vec<u8> = Vec::new();
    let mut ser = serde_json::Serializer::with_formatter(&mut out, PrettyPolicy::new());
    value.serialize(&mut ser).unwrap();
    out
}

fn pretty_with_indent<T: serde::Serialize>(value: &T, indent: &[u8]) -> Vec<u8> {
    let mut out: Vec<u8> = Vec::new();
    let mut ser =
        serde_json::Serializer::with_formatter(&mut out, PrettyPolicy::with_indent(indent));
    value.serialize(&mut ser).unwrap();
    out
}

// The value {"a": 1.5, "b": [2, 3.0]}, built by calls.
fn sample_value() -> serde_json::Value {
    let mut map = serde_json::Map::new();
    map.insert(
        "a".to_string(),
        serde_json::Value::Number(serde_json::Number::from_f64(1.5).unwrap()),
    );
    let arr = vec![
        serde_json::Value::Number(serde_json::Number::from(2u64)),
        serde_json::Value::Number(serde_json::Number::from_f64(3.0).unwrap()),
    ];
    map.insert("b".to_string(), serde_json::Value::Array(arr));
    serde_json::Value::Object(map)
}

#[test]
fn compact_output_folds_integral_floats() {
    assert_eq!(compact(&sample_value()), b"{\"a\":1.5,\"b\":[2,3]}");
}

#[test]
fn pretty_output_with_default_indent() {
    let expected = "{\n  \"a\": 1.5,\n  \"b\": [\n    2,\n    3\n  ]\n}";
    assert_eq!(String::from_utf8(pretty(&sample_value())).unwrap(), expected);
}

#[test]
fn pretty_output_with_tab_indent_changes_only_whitespace() {
    let expected = "{\n\t\"a\": 1.5,\n\t\"b\": [\n\t\t2,\n\t\t3\n\t]\n}";
    let got = String::from_utf8(pretty_with_indent(&sample_value(), b"\t")).unwrap();
    assert_eq!(got, expected);
    // Stripped of whitespace, default-indent and tab-indent outputs agree
    // token for token.
    let default_out = String::from_utf8(pretty(&sample_value())).unwrap();
    let strip = |s: &str| s.chars().filter(|c| !c.is_whitespace()).collect::<String>();
    assert_eq!(strip(&got), strip(&default_out));
}

#[test]
fn compact_then_parse_then_compact_is_identical() {
    let first = compact(&sample_value());
    let parsed: serde_json::Value = serde_json::from_slice(&first).unwrap();
    let second = compact(&parsed);
    assert_eq!(first, second);

    // A value with non-integral floats round-trips byte-identically too.
    let mut map = serde_json::Map::new();
    map.insert(
        "x".to_string(),
        serde_json::Value::Number(serde_json::Number::from_f64(0.1).unwrap()),
    );
    map.insert(
        "y".to_string(),
        serde_json::Value::Number(serde_json::Number::from_f64(1.0e300).unwrap()),
    );
    let v = serde_json::Value::Object(map);
    let first = compact(&v);
    let parsed: serde_json::Value = serde_json::from_slice(&first).unwrap();
    let second = compact(&parsed);
    assert_eq!(first, second);
}

#[test]
fn negative_zero_serializes_as_plain_zero() {
    let v = serde_json::Value::Number(serde_json::Number::from_f64(-0.0).unwrap());
    assert_eq!(compact(&v), b"0");
}

// A value serialized through `serialize_f32`, to drive the 32-bit callback.
struct Single(f32);

impl serde::Serialize for Single {
    fn serialize<S: serde::Serializer>(&self, s: S) -> Result<S::Ok, S::Error> {
        s.serialize_f32(self.0)
    }
}

#[test]
fn single_precision_output_matches_double_precision() {
    assert_eq!(compact(&Single(3.0)), b"3");
    let v = serde_json::Value::Number(serde_json::Number::from_f64(3.0).unwrap());
    assert_eq!(compact(&v), b"3");
    assert_eq!(compact(&Single(1.5)), b"1.5");
}

#[test]
fn large_floats_keep_the_float_literal() {
    // Out of signed 64-bit range: the policy leaves the base float
    // formatter's literal untouched.
    let v = serde_json::Value::Number(serde_json::Number::from_f64(1.0e20).unwrap());
    assert_eq!(compact(&v), serde_json::to_string(&v).unwrap().into_bytes());
    let w = serde_json::Value::Number(serde_json::Number::from_f64(0.1).unwrap());
    assert_eq!(compact(&w), b"0.1");
}
