use serde_format::Error;
use serde_format::FieldMap;
use serde_format::Format;
use serde_format::Formatter;
use serde_format::Value;

struct Foo {
    s: String,
    n: u32,
    b: bool,
}

impl Format for Foo {
    fn placeholders(&self) -> (String, String) {
        ("{{".to_string(), "}}".to_string())
    }

    fn to_fields(&self) -> Result<FieldMap, Error> {
        let mut m = FieldMap::new();
        m.insert("s".to_string(), Value::Str(self.s.clone()));
        m.insert("n".to_string(), Value::UInt(self.n as u64));
        m.insert("b".to_string(), Value::Bool(self.b));
        Ok(m)
    }
}

struct Bar {
    s: String,
    n: u32,
    b: bool,
}

impl Format for Bar {
    fn placeholders(&self) -> (String, String) {
        ("${".to_string(), "}".to_string())
    }

    fn to_fields(&self) -> Result<FieldMap, Error> {
        let mut m = FieldMap::new();
        m.insert("s".to_string(), Value::Str(self.s.clone()));
        m.insert("n".to_string(), Value::UInt(self.n as u64));
        m.insert("b".to_string(), Value::Bool(self.b));
        Ok(m)
    }
}

#[test]
fn default_placeholders() {
    let foo = Foo {
        s: "hey".into(),
        n: 1,
        b: true,
    };

    assert_eq!(
        foo.format("s={{s}} n={{n}} b={{b}}").unwrap(),
        "s=hey n=1 b=true"
    );
    assert_eq!(
        foo.format("s={{s}} n={{n}}").err().unwrap().message(),
        "absent variable `b`"
    );
}

#[test]
fn custom_placeholders() {
    let bar = Bar {
        s: "hey".into(),
        n: 1,
        b: true,
    };

    assert_eq!(
        bar.format("s=${s} n=${n} b=${b}").unwrap(),
        "s=hey n=1 b=true"
    );
    assert_eq!(
        bar.format("s=${s} n=${n}").err().unwrap().message(),
        "absent variable `b`"
    );
}

#[test]
fn greeting_record() {
    struct Greeting {
        name: String,
    }

    impl Format for Greeting {
        fn placeholders(&self) -> (String, String) {
            ("{{".to_string(), "}}".to_string())
        }

        fn to_fields(&self) -> Result<FieldMap, Error> {
            let mut m = FieldMap::new();
            m.insert("name".to_string(), Value::Str(self.name.clone()));
            Ok(m)
        }
    }

    let greeting = Greeting {
        name: "Bar".into(),
    };
    assert_eq!(greeting.format("Hey, {{name}}!").unwrap(), "Hey, Bar!");
}

#[test]
fn empty_record_leaves_template_unchanged() {
    let fields = FieldMap::new();
    let f = Formatter::default();
    assert_eq!(f.format(&fields, "plain text").unwrap(), "plain text");
    assert_eq!(f.format(&fields, "").unwrap(), "");
    // A placeholder with no corresponding field is left untouched.
    assert_eq!(f.format(&fields, "a {{stray}} b").unwrap(), "a {{stray}} b");
}

#[test]
fn custom_delimiter_template_fails_with_defaults() {
    let foo = Foo {
        s: "hey".into(),
        n: 1,
        b: true,
    };
    // The first field in insertion order is reported.
    assert_eq!(
        foo.format("s=${s} n=${n} b=${b}").err().unwrap().message(),
        "absent variable `s`"
    );
}

#[test]
fn non_string_values_render_canonically() {
    let mut fields = FieldMap::new();
    fields.insert("zero".to_string(), Value::UInt(0));
    fields.insert("big".to_string(), Value::UInt(u64::MAX));
    fields.insert("neg".to_string(), Value::Int(-45));
    fields.insert("min".to_string(), Value::Int(i64::MIN));
    fields.insert("yes".to_string(), Value::Bool(true));
    fields.insert("no".to_string(), Value::Bool(false));
    fields.insert("nil".to_string(), Value::Null);
    fields.insert("arr".to_string(), Value::Raw("[1,2]".to_string()));
    let f = Formatter::default();
    let out = f
        .format(
            &fields,
            "{{zero}} {{big}} {{neg}} {{min}} {{yes}} {{no}} {{nil}} {{arr}}",
        )
        .unwrap();
    assert_eq!(
        out,
        "0 18446744073709551615 -45 -9223372036854775808 true false null [1,2]"
    );
}

#[test]
fn string_values_insert_verbatim_unquoted() {
    let mut fields = FieldMap::new();
    fields.insert("s".to_string(), Value::Str("a \"quoted\" bit".to_string()));
    let f = Formatter::default();
    assert_eq!(f.format(&fields, "<{{s}}>").unwrap(), "<a \"quoted\" bit>");
}

#[test]
fn every_occurrence_is_replaced() {
    let mut fields = FieldMap::new();
    fields.insert("s".to_string(), Value::Str("hey".to_string()));
    let f = Formatter::default();
    assert_eq!(
        f.format(&fields, "{{s}} and {{s}}").unwrap(),
        "hey and hey"
    );
}

#[test]
fn no_placeholder_syntax_remains() {
    let foo = Foo {
        s: "hey".into(),
        n: 7,
        b: false,
    };
    let out = foo.format("s={{s}}, n={{n}}, b={{b}}").unwrap();
    assert_eq!(out, "s=hey, n=7, b=false");
    assert!(!out.contains("{{"));
    assert!(!out.contains("}}"));
}

#[test]
fn missing_every_placeholder_is_rejected() {
    let foo = Foo {
        s: "hey".into(),
        n: 1,
        b: true,
    };
    let err = foo.format("no placeholders at all").err().unwrap();
    assert_eq!(err.message(), "absent variable `s`");
}

#[test]
fn colliding_value_substitutes_in_insertion_order() {
    // A string field whose content equals another field's placeholder: the
    // fields substitute in insertion order, so the injected text is itself
    // replaced by the later field.
    let mut fields = FieldMap::new();
    fields.insert("s".to_string(), Value::Str("{{n}}".to_string()));
    fields.insert("n".to_string(), Value::UInt(1));
    let f = Formatter::default();
    assert_eq!(f.format(&fields, "s={{s}} n={{n}}").unwrap(), "s=1 n=1");
}

#[test]
fn serialization_failure_propagates() {
    struct Broken;

    impl Format for Broken {
        fn placeholders(&self) -> (String, String) {
            ("{{".to_string(), "}}".to_string())
        }

        fn to_fields(&self) -> Result<FieldMap, Error> {
            Err(Error::SerdeJson("record is not an object".to_string()))
        }
    }

    let err = Broken.format("anything").err().unwrap();
    assert_eq!(err.message(), "serde_json");
    assert!(matches!(err, Error::SerdeJson(_)));
}

#[test]
fn explicit_formatter_construction() {
    let f = Formatter::new("<".to_string(), ">".to_string());
    let mut fields = FieldMap::new();
    fields.insert("x".to_string(), Value::UInt(3));
    assert_eq!(fields.len(), 1);
    assert_eq!(f.format(&fields, "x is <x>").unwrap(), "x is 3");
}
