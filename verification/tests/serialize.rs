use html_stream::body;
use html_stream::serializer::join;
use html_stream::element::Phase;
use html_stream::serializer::Serializer;
use html_stream::html;
use html_stream::html_element::embed_body;
use html_stream::html_element::HtmlElement;
use html_stream::body_element::BodyElement;
use html_stream::html_main;
use html_stream::Body;
use html_stream::BodyChild;
use html_stream::BodySafeOutput;
use html_stream::Html;
use html_stream::HtmlAttribute;
use html_stream::HtmlChild;
use html_stream::HtmlSafeOutput;

fn html_texts(outputs: &[HtmlSafeOutput]) -> Vec<String> {
    outputs.iter().map(|output| output.as_str().to_string()).collect()
}

fn body_texts(outputs: &[BodySafeOutput]) -> Vec<String> {
    outputs.iter().map(|output| output.as_str().to_string()).collect()
}

#[test]
fn it_works() {
    let test: &str = BodyChild::Text("hi").into();
    assert_eq!("hi", test);

    let result = html_main();
    assert_eq!("<!DOCTYPE html><html lang=\"en\">test</html>", result);
}

#[test]
fn root_with_attribute_and_no_children() {
    let outputs = html(vec![Html::Attribute(HtmlAttribute::Lang("en"))]).unwrap();
    assert_eq!(join(&HtmlElement, &outputs), "<html lang=\"en\"></html>");
}

#[test]
fn root_with_escaped_attribute_and_text() {
    let outputs = html(vec![
        Html::Attribute(HtmlAttribute::Lang("en&\"")),
        Html::Child(HtmlChild::Text("test&<")),
    ])
    .unwrap();
    assert_eq!(
        join(&HtmlElement, &outputs),
        "<html lang=\"en&amp;&quot;\">test&amp;&lt;</html>"
    );
}

#[test]
fn fragments_come_in_the_fixed_order() {
    let outputs = html(vec![
        Html::Attribute(HtmlAttribute::Lang("en&\"")),
        Html::Child(HtmlChild::Text("test&<")),
        Html::Child(HtmlChild::Text("more")),
    ])
    .unwrap();
    assert_eq!(
        html_texts(&outputs),
        vec!["<html", " lang=\"", "en&amp;&quot;", "\"", ">", "test&amp;&lt;", "more", "</html>"]
    );
}

#[test]
fn nested_body_is_spliced_unchanged() {
    let inner = body(vec![Body::Child(BodyChild::Text("test"))]).unwrap();
    assert_eq!(body_texts(&inner), vec!["<body", ">", "test", "</body>"]);
    let outputs = html(embed_body(inner)).unwrap();
    assert_eq!(
        html_texts(&outputs),
        vec!["<html", ">", "<body", ">", "test", "</body>", "</html>"]
    );
    assert_eq!(join(&HtmlElement, &outputs), "<html><body>test</body></html>");
}

#[test]
fn nested_fragments_are_not_escaped_again() {
    let inner = body(vec![Body::Child(BodyChild::Text("a<b&c"))]).unwrap();
    assert_eq!(join(&BodyElement, &inner), "<body>a&lt;b&amp;c</body>");
    let outputs = html(embed_body(inner)).unwrap();
    assert_eq!(join(&HtmlElement, &outputs), "<html><body>a&lt;b&amp;c</body></html>");
}

#[test]
fn attribute_after_child_is_fatal() {
    let result = html(vec![
        Html::Child(HtmlChild::Text("test")),
        Html::Attribute(HtmlAttribute::Lang("en")),
    ]);
    let error = result.unwrap_err();
    assert_eq!(error.element, "html");
    assert!(matches!(error.attribute, HtmlAttribute::Lang("en")));
}

#[test]
fn first_misplaced_attribute_is_reported() {
    let error = html(vec![
        Html::Attribute(HtmlAttribute::Lang("ok")),
        Html::Child(HtmlChild::Text("test")),
        Html::Attribute(HtmlAttribute::Lang("first")),
        Html::Child(HtmlChild::Text("more")),
        Html::Attribute(HtmlAttribute::Lang("second")),
    ])
    .unwrap_err();
    assert!(matches!(error.attribute, HtmlAttribute::Lang("first")));
}

#[test]
fn childless_element_ends_its_tag_once() {
    let outputs = body(vec![]).unwrap();
    assert_eq!(body_texts(&outputs), vec!["<body", ">", "</body>"]);
    let outputs = html(vec![]).unwrap();
    assert_eq!(html_texts(&outputs), vec!["<html", ">", "</html>"]);
    let outputs = html(vec![Html::Attribute(HtmlAttribute::Lang("en"))]).unwrap();
    let ends = html_texts(&outputs).iter().filter(|text| text.as_str() == ">").count();
    assert_eq!(ends, 1);
}

#[test]
fn repeated_attributes_are_all_emitted() {
    let outputs = html(vec![
        Html::Attribute(HtmlAttribute::Lang("en")),
        Html::Attribute(HtmlAttribute::Lang("de")),
    ])
    .unwrap();
    assert_eq!(join(&HtmlElement, &outputs), "<html lang=\"en\" lang=\"de\"></html>");
}

#[test]
fn serializer_steps_through_its_phases() {
    let mut serializer = Serializer::new(HtmlElement);
    assert_eq!(serializer.current_phase(), Phase::Opening);
    let opened = serializer.open();
    assert_eq!(html_texts(&opened), vec!["<html"]);
    assert_eq!(serializer.current_phase(), Phase::InAttributes);
    assert!(serializer.open().is_empty());

    let attribute = serializer.step(Some(Html::Attribute(HtmlAttribute::Lang("en")))).unwrap();
    assert_eq!(html_texts(&attribute), vec![" lang=\"", "en", "\""]);
    assert_eq!(serializer.current_phase(), Phase::InAttributes);

    let first = serializer.step(Some(Html::Child(HtmlChild::Text("a")))).unwrap();
    assert_eq!(html_texts(&first), vec![">", "a"]);
    assert_eq!(serializer.current_phase(), Phase::InChildren);

    let second = serializer.step(Some(Html::Child(HtmlChild::Text("b")))).unwrap();
    assert_eq!(html_texts(&second), vec!["b"]);

    let end = serializer.step(None).unwrap();
    assert_eq!(html_texts(&end), vec!["</html>"]);
    assert_eq!(serializer.current_phase(), Phase::Closed);

    let after = serializer.step(Some(Html::Child(HtmlChild::Text("c")))).unwrap();
    assert!(after.is_empty());
    assert!(serializer.step(None).unwrap().is_empty());
    assert_eq!(serializer.current_phase(), Phase::Closed);
}

#[test]
fn first_step_opens_the_tag() {
    let mut serializer = Serializer::new(HtmlElement);
    let first = serializer.step(Some(Html::Child(HtmlChild::Text("a")))).unwrap();
    assert_eq!(html_texts(&first), vec!["<html", ">", "a"]);

    let mut serializer = Serializer::new(BodyElement);
    let all = serializer.step(None).unwrap();
    assert_eq!(body_texts(&all), vec!["<body", ">", "</body>"]);
    assert_eq!(serializer.current_phase(), Phase::Closed);
}

#[test]
fn rejected_step_emits_nothing_and_closes() {
    let mut serializer = Serializer::new(HtmlElement);
    serializer.step(Some(Html::Child(HtmlChild::Text("a")))).unwrap();
    let error = serializer.step(Some(Html::Attribute(HtmlAttribute::Lang("late")))).unwrap_err();
    assert_eq!(error.element, "html");
    assert!(matches!(error.attribute, HtmlAttribute::Lang("late")));
    assert_eq!(serializer.current_phase(), Phase::Closed);
    assert!(serializer.step(None).unwrap().is_empty());
}

#[test]
fn conversions_between_payloads_and_text() {
    let child: BodyChild = "hi".into();
    assert!(matches!(child, BodyChild::Text("hi")));
    let value: &str = HtmlAttribute::Lang("en").into();
    assert_eq!(value, "en");
}

#[test]
fn steps_add_up_to_the_document() {
    let events = || {
        vec![
            Html::Attribute(HtmlAttribute::Lang("a\"b")),
            Html::Attribute(HtmlAttribute::Lang("c")),
            Html::Child(HtmlChild::Text("x<y")),
            Html::Child(HtmlChild::Text("z")),
        ]
    };
    let whole = html_texts(&html(events()).unwrap());
    let mut serializer = Serializer::new(HtmlElement);
    let mut stepped = Vec::new();
    for event in events() {
        stepped.extend(html_texts(&serializer.step(Some(event)).unwrap()));
    }
    stepped.extend(html_texts(&serializer.step(None).unwrap()));
    assert_eq!(stepped, whole);
    assert_eq!(serializer.current_phase(), Phase::Closed);
}

#[test]
fn body_with_several_children() {
    let outputs = body(vec![
        Body::Child(BodyChild::Text("a & b")),
        Body::Child(BodyChild::Text("<c>")),
    ])
    .unwrap();
    assert_eq!(body_texts(&outputs), vec!["<body", ">", "a &amp; b", "&lt;c>", "</body>"]);
    assert_eq!(outputs[2].as_str(), "a &amp; b");
}

#[test]
fn embedded_body_keeps_every_fragment() {
    let inner = body(vec![Body::Child(BodyChild::Text("x"))]).unwrap();
    let texts = body_texts(&inner);
    let children = embed_body(inner);
    assert_eq!(children.len(), texts.len());
    for (child, text) in children.iter().zip(texts.iter()) {
        match child {
            Html::Child(HtmlChild::Body(fragment)) => assert_eq!(fragment.as_str(), text),
            _ => panic!("not a body fragment"),
        }
    }
}

#[test]
fn text_may_follow_an_embedded_body() {
    let inner = body(vec![Body::Child(BodyChild::Text("b"))]).unwrap();
    let mut events = vec![
        Html::Attribute(HtmlAttribute::Lang("en")),
        Html::Child(HtmlChild::Text("a")),
    ];
    events.extend(embed_body(inner));
    events.push(Html::Child(HtmlChild::Text("c")));
    let outputs = html(events).unwrap();
    assert_eq!(join(&HtmlElement, &outputs), "<html lang=\"en\">a<body>b</body>c</html>");
}

#[test]
fn safe_output_gives_up_its_fragment() {
    let outputs = html(vec![Html::Child(HtmlChild::Text("a&b"))]).unwrap();
    let texts: Vec<String> =
        outputs.into_iter().map(|output| output.into_fragment().as_str().to_string()).collect();
    assert_eq!(texts, vec!["<html", ">", "a&amp;b", "</html>"]);
}

#[test]
fn events_show_the_text_that_they_carry() {
    assert_eq!(BodyChild::Text("hi").as_str(), "hi");
    assert_eq!(Body::Child(BodyChild::Text("a<b")).as_str(), "a<b");
    assert_eq!(HtmlAttribute::Lang("en").as_str(), "en");
    assert_eq!(Html::Attribute(HtmlAttribute::Lang("en&")).as_str(), "en&");
    assert_eq!(HtmlChild::Text("x").as_str(), "x");
    assert_eq!(Html::Child(HtmlChild::Text("a<b")).as_str(), "a<b");
    let inner = body(vec![Body::Child(BodyChild::Text("a<b"))]).unwrap();
    let children = embed_body(inner);
    assert_eq!(children[2].as_str(), "a&lt;b");
    let text: &str = Body::Child(BodyChild::Text("by value")).into();
    assert_eq!(text, "by value");
}
