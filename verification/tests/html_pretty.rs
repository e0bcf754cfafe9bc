use website_stalker::editor::html_pretty::{format_css_statement, prettify};

#[test]
fn format_css_statement_works() {
    assert_eq!("color: white;", format_css_statement("color:  white"));
    assert_eq!("color: white;", format_css_statement("color:white"));
    assert_eq!("color: white;", format_css_statement("  color: white  "));
}

#[test]
fn html_pretty_works() {
    let ugly = "<html><body>Just a <div>test</div></body></html>";
    assert_eq!(
        prettify(ugly),
        "<html>
	<head>
	</head>
	<body>
		Just a
		<div>
			test
		</div>
	</body>
</html>"
    );
}

#[test]
fn attributes_sorted() {
    let ugly = r#"<html><body><div style="--a: 42;" class="a">test</div></body></html>"#;
    assert_eq!(
        prettify(ugly),
        r#"<html>
	<head>
	</head>
	<body>
		<div class="a" style="--a: 42;">
			test
		</div>
	</body>
</html>"#
    );
}

#[test]
fn classes_sorted() {
    let ugly = r#"<html><body><div class="b  a">test</div></body></html>"#;
    assert_eq!(
        prettify(ugly),
        r#"<html>
	<head>
	</head>
	<body>
		<div class="a b">
			test
		</div>
	</body>
</html>"#
    );
}

#[test]
fn remove_empty_class_attribute() {
    let ugly = r#"<html><body><div class=" ">test</div></body></html>"#;
    assert_eq!(
        prettify(ugly),
        "<html>
	<head>
	</head>
	<body>
		<div>
			test
		</div>
	</body>
</html>"
    );
}

#[test]
fn style_formatted() {
    let ugly = r#"<html><body><div style="display:none;color:white;--something:42;">test</div></body></html>"#;
    assert_eq!(
        prettify(ugly),
        r#"<html>
	<head>
	</head>
	<body>
		<div style="--something: 42; color: white; display: none;">
			test
		</div>
	</body>
</html>"#
    );
}

#[test]
fn prettify_works() {
    let ugly = r#"<html><body>Just a <div>test</div></body></html>"#;
    assert_eq!(
        prettify(ugly),
        r#"<html>
	<head>
	</head>
	<body>
		Just a
		<div>
			test
		</div>
	</body>
</html>"#
    );
}

#[test]
fn pretty_keeps_doctype_and_comments_on_their_own_lines() {
    let ugly = "<!DOCTYPE html><html><body><!-- note --><br><p>a &amp; b</p></body></html>";
    assert_eq!(
        prettify(ugly),
        "<!DOCTYPE html>
<html>
	<head>
	</head>
	<body>
		<!-- note -->
		<br>
		<p>
			a & b
		</p>
	</body>
</html>"
    );
}

#[test]
fn pretty_escapes_attribute_values() {
    let ugly = r#"<html><body><a title="say &quot;hi&quot; &amp; go" href="x">t</a></body></html>"#;
    assert_eq!(
        prettify(ugly),
        r#"<html>
	<head>
	</head>
	<body>
		<a href="x" title="say &quot;hi&quot; &amp; go">
			t
		</a>
	</body>
</html>"#
    );
}
