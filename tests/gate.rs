use barrier_backend::gate::{control_call, control_document, generate_xml, get_params, Actuation, XmlContent, XmlNode};

const EXPECTED: &str = r#"<?xml version = "1.0" encoding = "UTF-8"?>
<methodCall>
	<params>
		<param>
			<value>
				<struct>
					<member>
						<name>ComPort</name>
						<value>
							<int>2</int>
						</value>
					</member>
					<member>
						<name>PKUAddress</name>
						<value>
							<int>0</int>
						</value>
					</member>
					<member>
						<name>DeviceAddress</name>
						<value>
							<int>666</int>
						</value>
					</member>
					<member>
						<name>AggregateAddress</name>
						<value>
							<int>1</int>
						</value>
					</member>
					<member>
						<name>Command</name>
						<value>
							<int>0</int>
						</value>
					</member>
					<member>
						<name>MethodNameForAnswer</name>
						<value>
							<string>Result</string>
						</value>
					</member>
					<member>
						<name>IPSERVER</name>
						<value>
							<string>127.0.0.1</string>
						</value>
					</member>
					<member>
						<name>PORTSERVER</name>
						<value>
							<int>8080</int>
						</value>
					</member>
				</struct>
			</value>
		</param>
	</params>
	<methodName>ControlAccess</methodName>
</methodCall>
"#;

#[test]
fn check_function() {
    let xml = control_document(666);

    assert_eq!(xml, EXPECTED);
}

#[test]
fn params_carry_the_device_address() {
    let p = get_params("17");
    assert_eq!(p.len(), 8);
    assert_eq!(p[2].name, "DeviceAddress");
    assert_eq!(p[2].value, "17");
    assert_eq!(p[5].attr_type, "string");
    assert_eq!(p[7].value, "8080");
}

fn run(attempts: i32, answers: &[bool]) -> (usize, Result<(), ()>) {
    let mut a = Actuation::new(attempts);
    let mut calls = 0usize;
    while a.wants_call() {
        a.record(answers[calls]);
        calls += 1;
    }
    (calls, a.outcome())
}

#[test]
fn actuation_sends_every_attempt() {
    assert_eq!(run(3, &[true, false, false]), (3, Ok(())));
    assert_eq!(run(3, &[false, false, true]), (3, Ok(())));
    assert_eq!(run(3, &[false, false, false]), (3, Err(())));
    assert_eq!(run(1, &[false]), (1, Err(())));
    assert_eq!(run(1, &[true]), (1, Ok(())));
}

#[test]
fn actuation_with_no_attempts_fails() {
    assert_eq!(run(0, &[]), (0, Err(())));
}

fn children(n: &XmlNode) -> &Vec<XmlNode> {
    match &n.content {
        XmlContent::Elements(v) => v,
        XmlContent::Text(_) => panic!("text element {}", n.name),
    }
}

fn text(n: &XmlNode) -> &str {
    match &n.content {
        XmlContent::Text(t) => t,
        XmlContent::Elements(_) => panic!("element {} has children", n.name),
    }
}

#[test]
fn control_call_has_the_envelope_shape() {
    let r = control_call("42");
    assert_eq!(r.name, "methodCall");
    let top = children(&r);
    assert_eq!(top.len(), 2);
    assert_eq!(top[1].name, "methodName");
    assert_eq!(text(&top[1]), "ControlAccess");
    let st = &children(&children(&children(&top[0])[0])[0])[0];
    assert_eq!(st.name, "struct");
    let members = children(st);
    assert_eq!(members.len(), 8);
    let device = children(&members[2]);
    assert_eq!(text(&device[0]), "DeviceAddress");
    let typed = &children(&device[1])[0];
    assert_eq!(typed.name, "int");
    assert_eq!(text(typed), "42");
    let g = generate_xml(-7);
    let st = &children(&children(&children(&children(&g)[0])[0])[0])[0];
    assert_eq!(text(&children(&children(&children(st)[2])[1])[0]), "-7");
}
