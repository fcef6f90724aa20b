use vstd::prelude::*;
use vstd::string::to_string_from_display_ensures;
use simple_xml_builder::XMLElement;

verus! {

#[verifier::external_type_specification]
#[verifier::external_body]
pub struct ExXMLElement(XMLElement);

/// One member of the controller call: its name, its value as text, and its
/// XML-RPC type tag.
pub struct XmlParam {
    pub name: String,
    pub value: String,
    pub attr_type: String,
}

pub type ParamView = (Seq<char>, Seq<char>, Seq<char>);

pub open spec fn param_view(p: XmlParam) -> ParamView {
    (p.name@, p.value@, p.attr_type@)
}

/// The eight members of the `ControlAccess` call, in wire order.
pub open spec fn control_params(device_address: Seq<char>) -> Seq<ParamView> {
    seq![
        ("ComPort"@, "2"@, "int"@),
        ("PKUAddress"@, "0"@, "int"@),
        ("DeviceAddress"@, device_address, "int"@),
        ("AggregateAddress"@, "1"@, "int"@),
        ("Command"@, "0"@, "int"@),
        ("MethodNameForAnswer"@, "Result"@, "string"@),
        ("IPSERVER"@, "127.0.0.1"@, "string"@),
        ("PORTSERVER"@, "8080"@, "int"@),
    ]
}

fn param(name: &str, value: &str, attr_type: &str) -> (r: XmlParam)
    ensures
        param_view(r) == (name@, value@, attr_type@),
{
    XmlParam { name: name.to_owned(), value: value.to_owned(), attr_type: attr_type.to_owned() }
}

/// The members of the call that opens a gate, whose controller id is
/// `device_address` (given as decimal text).
pub fn get_params(device_address: &str) -> (r: Vec<XmlParam>)
    ensures
        r@.map_values(|p: XmlParam| param_view(p)) == control_params(device_address@),
{
    let mut v: Vec<XmlParam> = Vec::new();
    v.push(param("ComPort", "2", "int"));
    v.push(param("PKUAddress", "0", "int"));
    v.push(param("DeviceAddress", device_address, "int"));
    v.push(param("AggregateAddress", "1", "int"));
    v.push(param("Command", "0", "int"));
    v.push(param("MethodNameForAnswer", "Result", "string"));
    v.push(param("IPSERVER", "127.0.0.1", "string"));
    v.push(param("PORTSERVER", "8080", "int"));
    assert(v@.map_values(|p: XmlParam| param_view(p)) =~= control_params(device_address@));
    v
}

/// An XML element as the library builds it: a name, and either text or
/// child elements.
pub struct XmlNode {
    pub name: String,
    pub content: XmlContent,
}

pub enum XmlContent {
    Text(String),
    Elements(Vec<XmlNode>),
}

/// The child elements of `n` (none for a text element).
pub open spec fn kids(n: XmlNode) -> Seq<XmlNode> {
    match n.content {
        XmlContent::Elements(v) => v@,
        XmlContent::Text(_) => Seq::empty(),
    }
}

/// `n` is the element `<name>text</name>`.
pub open spec fn is_leaf(n: XmlNode, name: Seq<char>, text: Seq<char>) -> bool {
    n.name@ == name && match n.content {
        XmlContent::Text(t) => t@ == text,
        XmlContent::Elements(_) => false,
    }
}

/// `n` is an element named `name` with `k` child elements.
pub open spec fn is_branch(n: XmlNode, name: Seq<char>, k: nat) -> bool {
    n.name@ == name && n.content is Elements && kids(n).len() == k
}

/// `m` is `<member><name>N</name><value><T>V</T></value></member>` for the
/// member `p == (N, V, T)`.
pub open spec fn is_member(m: XmlNode, p: ParamView) -> bool {
    &&& is_branch(m, "member"@, 2)
    &&& is_leaf(kids(m)[0], "name"@, p.0)
    &&& is_branch(kids(m)[1], "value"@, 1)
    &&& is_leaf(kids(kids(m)[1])[0], p.2, p.1)
}

/// `r` is the `ControlAccess` call for the device `device_address`:
/// `methodCall` holding `params/param/value/struct` with the eight members
/// in order, then `methodName`.
pub open spec fn is_control_call(r: XmlNode, device_address: Seq<char>) -> bool {
    let params = kids(r)[0];
    let param = kids(params)[0];
    let value = kids(param)[0];
    let st = kids(value)[0];
    &&& is_branch(r, "methodCall"@, 2)
    &&& is_branch(params, "params"@, 1)
    &&& is_branch(param, "param"@, 1)
    &&& is_branch(value, "value"@, 1)
    &&& is_branch(st, "struct"@, 8)
    &&& forall|i: int| 0 <= i < 8 ==> is_member(#[trigger] kids(st)[i], control_params(device_address)[i])
    &&& is_leaf(kids(r)[1], "methodName"@, "ControlAccess"@)
}

fn leaf(name: &str, text: &str) -> (r: XmlNode)
    ensures
        is_leaf(r, name@, text@),
{
    XmlNode { name: name.to_owned(), content: XmlContent::Text(text.to_owned()) }
}

fn branch(name: &str, children: Vec<XmlNode>) -> (r: XmlNode)
    ensures
        r.name@ == name@,
        r.content is Elements,
        kids(r) == children@,
{
    XmlNode { name: name.to_owned(), content: XmlContent::Elements(children) }
}

/// The `ControlAccess` call that opens a gate, whose controller id is
/// `device_address` (given as decimal text).
pub fn control_call(device_address: &str) -> (r: XmlNode)
    ensures
        is_control_call(r, device_address@),
{
    let xml_params = get_params(device_address);
    let ghost cp = control_params(device_address@);
    assert(xml_params@.len() == 8) by {
        assert(xml_params@.map_values(|p: XmlParam| param_view(p)).len() == cp.len());
    }
    let mut members: Vec<XmlNode> = Vec::new();
    let mut i: usize = 0;
    while i < xml_params.len()
        invariant
            i <= xml_params@.len(),
            xml_params@.len() == 8,
            cp == control_params(device_address@),
            xml_params@.map_values(|p: XmlParam| param_view(p)) == cp,
            members@.len() == i,
            forall|j: int| 0 <= j < i ==> is_member(#[trigger] members@[j], cp[j]),
        decreases xml_params.len() - i,
    {
        let p = &xml_params[i];
        assert(param_view(*p) == cp[i as int]) by {
            assert(xml_params@.map_values(|p: XmlParam| param_view(p))[i as int] == param_view(xml_params@[i as int]));
        }
        let name = leaf("name", p.name.as_str());
        let t = leaf(p.attr_type.as_str(), p.value.as_str());
        let value = branch("value", vec![t]);
        let member = branch("member", vec![name, value]);
        members.push(member);
        i = i + 1;
    }
    let st = branch("struct", members);
    let value = branch("value", vec![st]);
    let param = branch("param", vec![value]);
    let params = branch("params", vec![param]);
    let method_name = leaf("methodName", "ControlAccess");
    let r = branch("methodCall", vec![params, method_name]);
    assert(kids(kids(kids(kids(r)[0])[0])[0])[0] == st);
    r
}

/// The `ControlAccess` call for a gate with controller id
/// `device_address`; the `DeviceAddress` member holds its decimal text.
pub fn generate_xml(device_address: i32) -> (r: XmlNode)
    ensures
        exists|s: String|
            to_string_from_display_ensures::<i32>(&device_address, s) && #[trigger] is_control_call(r, s@),
{
    let text = device_address.to_string();
    control_call(text.as_str())
}

/// Relies on simple_xml_builder's XMLElement::new, add_text and add_child:
/// the builder's element for `node`, one for one. Text goes only onto a
/// fresh element and children only onto one without text, so neither call
/// panics.
#[verifier::external_body]
fn to_xml_element(node: &XmlNode) -> XMLElement {
    let mut e = XMLElement::new(&node.name);
    match &node.content {
        XmlContent::Text(t) => e.add_text(t),
        XmlContent::Elements(children) => {
            for c in children {
                e.add_child(to_xml_element(c));
            }
        },
    }
    e
}

/// Relies on simple_xml_builder's Display for XMLElement: the UTF-8
/// document, with its XML declaration and tab-indented elements.
#[verifier::external_body]
fn render_document(e: &XMLElement) -> String {
    e.to_string()
}

/// The document to POST to the controller to open a gate with controller
/// id `device_address`: the rendering of `generate_xml`.
pub fn control_document(device_address: i32) -> String {
    let call = generate_xml(device_address);
    render_document(&to_xml_element(&call))
}

/// The state of one actuation: how many calls it must send, how many it has
/// sent, and how many of those failed.
pub struct Actuation {
    attempts: i32,
    sent: i32,
    failures: i32,
}

pub struct ActuationView {
    pub attempts: int,
    pub sent: int,
    pub failures: int,
}

pub open spec fn start(attempts: int) -> ActuationView {
    ActuationView { attempts, sent: 0, failures: 0 }
}

/// The state after one call whose answer was a success or not.
pub open spec fn step(s: ActuationView, success: bool) -> ActuationView {
    ActuationView { attempts: s.attempts, sent: s.sent + 1, failures: if success { s.failures } else { s.failures + 1 } }
}

/// The state after the calls whose answers are `outcomes`, in order.
pub open spec fn drive(s: ActuationView, outcomes: Seq<bool>) -> ActuationView
    decreases outcomes.len(),
{
    if outcomes.len() == 0 {
        s
    } else {
        step(drive(s, outcomes.drop_last()), outcomes.last())
    }
}

/// Another call is owed while fewer than `attempts` were sent.
pub open spec fn owes_call(s: ActuationView) -> bool {
    s.sent < s.attempts
}

/// The actuation failed when every attempt failed.
pub open spec fn failed(s: ActuationView) -> bool {
    s.failures == s.attempts
}

impl View for Actuation {
    type V = ActuationView;

    closed spec fn view(&self) -> ActuationView {
        ActuationView { attempts: self.attempts as int, sent: self.sent as int, failures: self.failures as int }
    }
}

impl Actuation {
    pub closed spec fn wf(&self) -> bool {
        0 <= self.failures <= self.sent && (self.sent <= self.attempts || self.sent == 0)
    }

    /// A fresh actuation that must send `attempts` calls.
    pub fn new(attempts: i32) -> (r: Actuation)
        ensures
            r.wf(),
            r@ == start(attempts as int),
    {
        Actuation { attempts, sent: 0, failures: 0 }
    }

    /// Whether another call must be sent. Every configured call is sent,
    /// also after a success.
    pub fn wants_call(&self) -> (r: bool)
        requires
            self.wf(),
        ensures
            r == owes_call(self@),
    {
        self.sent < self.attempts
    }

    /// Takes note of the answer to one call: a transport error and a non-2xx
    /// status both count as a failure.
    pub fn record(&mut self, success: bool)
        requires
            old(self).wf(),
            owes_call(old(self)@),
        ensures
            final(self).wf(),
            final(self)@ == step(old(self)@, success),
    {
        self.sent = self.sent + 1;
        if !success {
            self.failures = self.failures + 1;
        }
    }

    /// The overall result: a failure exactly when every attempt failed.
    pub fn outcome(&self) -> (r: Result<(), ()>)
        requires
            self.wf(),
        ensures
            r is Err <==> failed(self@),
    {
        if self.failures == self.attempts {
            Err(())
        } else {
            Ok(())
        }
    }
}

/// How many of `outcomes` are failures.
pub open spec fn failures_in(outcomes: Seq<bool>) -> int
    decreases outcomes.len(),
{
    if outcomes.len() == 0 {
        0
    } else {
        failures_in(outcomes.drop_last()) + if outcomes.last() { 0int } else { 1int }
    }
}

proof fn lemma_drive_counts(n: int, outcomes: Seq<bool>)
    ensures
        drive(start(n), outcomes).attempts == n,
        drive(start(n), outcomes).sent == outcomes.len(),
        drive(start(n), outcomes).failures == failures_in(outcomes),
    decreases outcomes.len(),
{
    if outcomes.len() > 0 {
        lemma_drive_counts(n, outcomes.drop_last());
    }
}

proof fn lemma_all_failed(outcomes: Seq<bool>)
    ensures
        0 <= failures_in(outcomes) <= outcomes.len(),
        failures_in(outcomes) == outcomes.len() <==> forall|i: int| 0 <= i < outcomes.len() ==> !outcomes[i],
    decreases outcomes.len(),
{
    if outcomes.len() > 0 {
        let d = outcomes.drop_last();
        lemma_all_failed(d);
        if forall|i: int| 0 <= i < outcomes.len() ==> !outcomes[i] {
            assert forall|i: int| 0 <= i < d.len() implies !d[i] by {
                assert(d[i] == outcomes[i]);
            }
        }
        if failures_in(outcomes) == outcomes.len() {
            assert forall|i: int| 0 <= i < outcomes.len() implies !outcomes[i] by {
                if i < d.len() {
                    assert(d[i] == outcomes[i]);
                }
            }
        }
    }
}

/// Driving an actuation of `n` attempts through `n` answers sends exactly
/// `n` calls, whatever the answers and wherever a success falls, then owes
/// no more; it fails if and only if every answer was a failure.
pub proof fn lemma_actuation_sends_all(n: int, outcomes: Seq<bool>)
    requires
        n >= 0,
        outcomes.len() == n,
    ensures
        drive(start(n), outcomes).sent == n,
        !owes_call(drive(start(n), outcomes)),
        forall|k: int| 0 <= k < n ==> owes_call(#[trigger] drive(start(n), outcomes.take(k))),
        failed(drive(start(n), outcomes)) <==> forall|i: int| 0 <= i < n ==> !outcomes[i],
{
    lemma_drive_counts(n, outcomes);
    lemma_all_failed(outcomes);
    assert forall|k: int| 0 <= k < n implies owes_call(#[trigger] drive(start(n), outcomes.take(k))) by {
        lemma_drive_counts(n, outcomes.take(k));
    }
}

} // verus!
