use kafka_json_processor::formatters::json::pretty_json;

#[test]
fn should_format_json_as_pretty() {
    let original = r##"{"glossary":[{"title":"example glossary","GlossDiv":{"title":"S","numbers":[1,2,3],"available":true,"number":123.22,"GlossList":{"GlossEntry":{"ID":"SGML","SortAs":"SGML","GlossTerm":"Standard Generalized Markup Language","Acronym":"SGML","Abbrev":"ISO 8879:1986","GlossDef":{"para":"A meta-markup language, used to create markup languages such as \"DocBook\".","GlossSeeAlso":["GML","XML"]},"GlossSee":"markup"}}}}]}"##;

    let expected = r##"{
  "glossary": [
    {
      "title": "example glossary",
      "GlossDiv": {
        "title": "S",
        "numbers": [
          1,
          2,
          3
        ],
        "available": true,
        "number": 123.22,
        "GlossList": {
          "GlossEntry": {
            "ID": "SGML",
            "SortAs": "SGML",
            "GlossTerm": "Standard Generalized Markup Language",
            "Acronym": "SGML",
            "Abbrev": "ISO 8879:1986",
            "GlossDef": {
              "para": "A meta-markup language, used to create markup languages such as \"DocBook\".",
              "GlossSeeAlso": [
                "GML",
                "XML"
              ]
            },
            "GlossSee": "markup"
          }
        }
      }
    }
  ]
}"##;

    assert_eq!(pretty_json(original.to_string()), expected);
}

#[test]
fn should_format_json_partially_formatted_json() {
    let original = r##"{"glossary":[{
        "title": "example glossary",
        "GlossDiv": {"title":"S","available":true,"number":123.22,"GlossList":{"GlossEntry":
        {
           "ID": "SGML",
           "SortAs": "SGML","GlossTerm":"Standard Generalized Markup Language","Acronym":"SGML","Abbrev":"ISO 8879:1986","GlossDef":{"para":"A meta-markup language, used to create markup languages such as \"DocBook\".","GlossSeeAlso":["GML","XML"]},"GlossSee":"markup"}}}}]}"##;

    let expected = r##"{
  "glossary": [
    {
      "title": "example glossary",
      "GlossDiv": {
        "title": "S",
        "available": true,
        "number": 123.22,
        "GlossList": {
          "GlossEntry": {
            "ID": "SGML",
            "SortAs": "SGML",
            "GlossTerm": "Standard Generalized Markup Language",
            "Acronym": "SGML",
            "Abbrev": "ISO 8879:1986",
            "GlossDef": {
              "para": "A meta-markup language, used to create markup languages such as \"DocBook\".",
              "GlossSeeAlso": [
                "GML",
                "XML"
              ]
            },
            "GlossSee": "markup"
          }
        }
      }
    }
  ]
}"##;

    assert_eq!(pretty_json(original.to_string()), expected);
}

#[test]
fn pretty_json_is_idempotent_on_pretty_input() {
    let original = r##"prefix [INFO] {"a":{"b":[1,2,{"c":"x y"}],"d":"e\"f"}} suffix"##;
    let once = pretty_json(original.to_string());
    let twice = pretty_json(once.clone());
    assert_eq!(once, twice);
}

#[test]
fn pretty_json_preserves_text_outside_the_region() {
    let original = "before text {\"k\":1} after text";
    let out = pretty_json(original.to_string());
    assert!(out.starts_with("before text "));
    assert!(out.ends_with(" after text"));
    assert_eq!(out, "before text {\n  \"k\": 1\n} after text");
}

#[test]
fn pretty_json_without_region_is_identity() {
    let original = "no json here at all";
    assert_eq!(pretty_json(original.to_string()), original);
}
