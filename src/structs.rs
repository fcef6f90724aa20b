use vstd::prelude::*;

verus! {

/// A physical gate as the controller knows it.
#[derive(Clone, Debug)]
pub struct Gate {
    pub id: i32,
    pub name: String,
    pub description: String,
    pub retries: i32,
}

/// The mathematical value of a gate: its four attributes as plain values.
pub struct GateView {
    pub id: i32,
    pub name: Seq<char>,
    pub description: Seq<char>,
    pub retries: i32,
}

impl View for Gate {
    type V = GateView;

    open spec fn view(&self) -> GateView {
        GateView { id: self.id, name: self.name@, description: self.description@, retries: self.retries }
    }
}

/// The views of a sequence of gates, element by element.
pub open spec fn gates_view(s: Seq<Gate>) -> Seq<GateView> {
    s.map_values(|g: Gate| g@)
}

impl Gate {
    /// A copy of this gate with the same attributes.
    pub fn cloned(&self) -> (r: Gate)
        ensures
            r@ == self@,
    {
        Gate {
            id: self.id,
            name: self.name.clone(),
            description: self.description.clone(),
            retries: self.retries,
        }
    }
}

/// Copies a list of gates, keeping order and attributes.
pub fn clone_gates(v: &Vec<Gate>) -> (r: Vec<Gate>)
    ensures
        gates_view(r@) == gates_view(v@),
{
    let mut r: Vec<Gate> = Vec::new();
    let mut i: usize = 0;
    while i < v.len()
        invariant
            i <= v.len(),
            r.len() == i,
            forall|j: int| 0 <= j < i ==> #[trigger] r@[j]@ == v@[j]@,
        decreases v.len() - i,
    {
        r.push(v[i].cloned());
        i = i + 1;
    }
    assert(gates_view(r@) =~= gates_view(v@));
    r
}

/// Two gates are the same gate when their controller ids agree; the other
/// attributes do not take part in identity.
impl PartialEq for Gate {
    fn eq(&self, rhs: &Gate) -> (r: bool) {
        self.id == rhs.id
    }
}

impl vstd::std_specs::cmp::PartialEqSpecImpl for Gate {
    open spec fn obeys_eq_spec() -> bool {
        true
    }

    open spec fn eq_spec(&self, rhs: &Gate) -> bool {
        self.id == rhs.id
    }
}

impl Eq for Gate {}

/// Failures that reach a caller of the session operations.
#[derive(Debug, Clone, Copy, PartialEq, Eq, Structural)]
pub enum Errors {
    InvalidLogin,
    Unauthorized,
    NotFound,
}

/// The HTTP status of each error.
pub open spec fn status_of(e: Errors) -> u16 {
    match e {
        Errors::InvalidLogin => 403,
        Errors::Unauthorized => 401,
        Errors::NotFound => 404,
    }
}

impl Errors {
    /// The human-readable text of the error.
    pub fn message(&self) -> (r: String)
        ensures
            r@ == self.message_spec(),
    {
        match self {
            Errors::InvalidLogin => "Invalid login or password".to_owned(),
            Errors::Unauthorized => "Unauthorized access".to_owned(),
            Errors::NotFound => "Not Found".to_owned(),
        }
    }

    /// The HTTP status that renders the error.
    pub fn status_code(&self) -> (r: u16)
        ensures
            r == status_of(*self),
    {
        match self {
            Errors::InvalidLogin => 403,
            Errors::Unauthorized => 401,
            Errors::NotFound => 404,
        }
    }

    /// The body a client receives for this error.
    pub fn error_response(&self) -> (r: CommonError)
        ensures
            r.error@ == self.message_spec(),
    {
        CommonError { error: self.message() }
    }

    pub open spec fn message_spec(&self) -> Seq<char> {
        match self {
            Errors::InvalidLogin => "Invalid login or password"@,
            Errors::Unauthorized => "Unauthorized access"@,
            Errors::NotFound => "Not Found"@,
        }
    }
}

/// The error object of a failed request.
pub struct CommonError {
    pub error: String,
}

} // verus!
