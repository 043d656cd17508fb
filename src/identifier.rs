use vstd::prelude::*;
use vstd::string::*;

verus! {

/// The characters an identifier part may hold: `[a-z0-9_.-]`.
pub open spec fn is_id_char(c: char) -> bool {
    ('a' <= c && c <= 'z') || ('0' <= c && c <= '9') || c == '_' || c == '-' || c == '.'
}

/// The characters of `s` that an identifier part may not hold, in order of appearance.
pub open spec fn invalid_chars_of(s: Seq<char>) -> Seq<char>
    decreases s.len(),
{
    if s.len() == 0 {
        Seq::empty()
    } else if is_id_char(s.last()) {
        invalid_chars_of(s.drop_last())
    } else {
        invalid_chars_of(s.drop_last()).push(s.last())
    }
}

/// Number of `:` separators in `s`.
pub open spec fn colon_count(s: Seq<char>) -> nat
    decreases s.len(),
{
    if s.len() == 0 {
        0
    } else if s.last() == ':' {
        colon_count(s.drop_last()) + 1
    } else {
        colon_count(s.drop_last())
    }
}

/// Position of the last `:` in `s`, or -1 when there is none.
pub open spec fn last_colon(s: Seq<char>) -> int
    decreases s.len(),
{
    if s.len() == 0 {
        -1
    } else if s.last() == ':' {
        s.len() - 1
    } else {
        last_colon(s.drop_last())
    }
}

/// The canonical text of an identifier: `namespace:name`.
pub open spec fn id_text(namespace: Seq<char>, name: Seq<char>) -> Seq<char> {
    namespace + seq![':'] + name
}

/// Both parts are non-empty and hold only allowed characters.
pub open spec fn valid_parts(namespace: Seq<char>, name: Seq<char>) -> bool {
    &&& namespace.len() > 0
    &&& name.len() > 0
    &&& invalid_chars_of(namespace).len() == 0
    &&& invalid_chars_of(name).len() == 0
}

/// The error that validating the parts `(namespace, name)` reports, when they are not valid.
pub open spec fn is_validation_error(e: IdValidationError, namespace: Seq<char>, name: Seq<char>) -> bool {
    let bad = invalid_chars_of(namespace) + invalid_chars_of(name);
    if bad.len() > 0 {
        &&& e is InvalidCharacters
        &&& e->InvalidCharacters_id@ == id_text(namespace, name)
        &&& e->InvalidCharacters_invalid_chars@ == bad
    } else {
        &&& e is EmptyPart
        &&& e->EmptyPart_0@ == id_text(namespace, name)
    }
}

/// Why a text is not a valid `namespace:name` identifier.
#[derive(Debug, Clone)]
pub enum IdValidationError {
    /// The text holds no `:`.
    MissingColon(String),
    /// The text holds more than one `:`.
    TooManyColons(String),
    /// A part holds characters outside `[a-z0-9_.-]`; `invalid_chars` lists them.
    InvalidCharacters { id: String, invalid_chars: String },
    /// The namespace or the name is empty.
    EmptyPart(String),
}

/// A `namespace:name` handle for a block or item type; `from_str` builds only valid ones.
#[derive(Debug, Hash)]
pub struct Identifier {
    namespace: String,
    name: String,
}

impl View for Identifier {
    type V = (Seq<char>, Seq<char>);

    closed spec fn view(&self) -> (Seq<char>, Seq<char>) {
        (self.namespace@, self.name@)
    }
}

impl Clone for Identifier {
    fn clone(&self) -> (r: Self)
        ensures
            r == *self,
    {
        Identifier { namespace: self.namespace.clone(), name: self.name.clone() }
    }
}

impl PartialEq for Identifier {
    fn eq(&self, other: &Identifier) -> (r: bool) {
        self.namespace == other.namespace && self.name == other.name
    }
}

impl vstd::std_specs::cmp::PartialEqSpecImpl for Identifier {
    open spec fn obeys_eq_spec() -> bool {
        true
    }

    open spec fn eq_spec(&self, other: &Identifier) -> bool {
        self@ == other@
    }
}

impl Eq for Identifier {}

/// Whether `c` may stand in an identifier part.
fn is_valid_char(c: char) -> (r: bool)
    ensures
        r == is_id_char(c),
{
    ('a' <= c && c <= 'z') || ('0' <= c && c <= '9') || c == '_' || c == '-' || c == '.'
}

/// The characters of `s` outside `[a-z0-9_.-]`, in order.
fn collect_invalid_chars(s: &str) -> (r: String)
    ensures
        r@ == invalid_chars_of(s@),
{
    let n = s.unicode_len();
    let mut out = String::new();
    let mut i: usize = 0;
    while i < n
        invariant
            n == s@.len(),
            i <= n,
            out@ == invalid_chars_of(s@.take(i as int)),
        decreases n - i,
    {
        let c = s.get_char(i);
        assert(s@.take(i + 1).drop_last() =~= s@.take(i as int));
        if !is_valid_char(c) {
            let one = s.substring_char(i, i + 1);
            assert(one@ =~= seq![c]);
            out.append(one);
            assert(out@ =~= invalid_chars_of(s@.take(i as int)).push(c));
        }
        i += 1;
    }
    assert(s@.take(n as int) =~= s@);
    out
}

/// What parsing `text` as `namespace:name` yields: `r` is that result.
pub open spec fn parses_to(text: Seq<char>, r: Result<Identifier, IdValidationError>) -> bool {
    let k = last_colon(text);
    let namespace = text.take(k);
    let name = text.skip(k + 1);
    if colon_count(text) == 0 {
        r is Err && r->Err_0 is MissingColon && r->Err_0->MissingColon_0@ == text
    } else if colon_count(text) >= 2 {
        r is Err && r->Err_0 is TooManyColons && r->Err_0->TooManyColons_0@ == text
    } else if valid_parts(namespace, name) {
        r is Ok && r->Ok_0@ == (namespace, name)
    } else {
        r is Err && is_validation_error(r->Err_0, namespace, name)
    }
}

impl Identifier {
    /// Builds an identifier from its two parts, without validating them.
    pub fn new(namespace: &str, name: &str) -> (r: Identifier)
        ensures
            r@ == (namespace@, name@),
    {
        Identifier { namespace: String::from_str(namespace), name: String::from_str(name) }
    }

    /// Parses `namespace:name` from an owned string; see [`Identifier::from_str`].
    pub fn from(id: &String) -> (r: Result<Identifier, IdValidationError>)
        ensures
            parses_to(id@, r),
    {
        Identifier::from_str(id.as_str())
    }

    /// Parses `namespace:name`: exactly one `:`, both parts non-empty and made of `[a-z0-9_.-]`.
    pub fn from_str(id: &str) -> (r: Result<Identifier, IdValidationError>)
        ensures
            parses_to(id@, r),
    {
        let n = id.unicode_len();
        let mut count: usize = 0;
        let mut last: usize = 0;
        let mut i: usize = 0;
        while i < n
            invariant
                n == id@.len(),
                i <= n,
                count <= i,
                count == colon_count(id@.take(i as int)),
                count > 0 ==> last < i && last_colon(id@.take(i as int)) == last,
                count == 0 ==> last_colon(id@.take(i as int)) == -1,
            decreases n - i,
        {
            let c = id.get_char(i);
            assert(id@.take(i + 1).drop_last() =~= id@.take(i as int));
            if c == ':' {
                count += 1;
                last = i;
            }
            i += 1;
        }
        assert(id@.take(n as int) =~= id@);
        if count == 0 {
            Err(IdValidationError::MissingColon(String::from_str(id)))
        } else if count > 1 {
            Err(IdValidationError::TooManyColons(String::from_str(id)))
        } else {
            let namespace = id.substring_char(0, last);
            let name = id.substring_char(last + 1, n);
            assert(namespace@ =~= id@.take(last as int));
            assert(name@ =~= id@.skip(last + 1));
            let ident = Identifier::new(namespace, name);
            match ident.validate() {
                Ok(()) => Ok(ident),
                Err(e) => Err(e),
            }
        }
    }

    /// The namespace part.
    pub fn get_namespace(&self) -> (r: String)
        ensures
            r@ == self@.0,
    {
        self.namespace.clone()
    }

    /// The name part.
    pub fn get_name(&self) -> (r: String)
        ensures
            r@ == self@.1,
    {
        self.name.clone()
    }

    /// The canonical text `namespace:name`.
    pub fn as_string(&self) -> (r: String)
        ensures
            r@ == id_text(self@.0, self@.1),
    {
        let mut s = self.namespace.clone();
        proof {
            reveal_strlit(":");
        }
        s.append(":");
        s.append(self.name.as_str());
        s
    }

    /// Checks that both parts are non-empty and hold only `[a-z0-9_.-]`.
    /// Invalid characters are reported before empty parts.
    pub fn validate(&self) -> (r: Result<(), IdValidationError>)
        ensures
            r is Ok <==> valid_parts(self@.0, self@.1),
            r is Err ==> is_validation_error(r->Err_0, self@.0, self@.1),
    {
        let bad_namespace = collect_invalid_chars(self.namespace.as_str());
        let bad_name = collect_invalid_chars(self.name.as_str());
        if bad_namespace.unicode_len() > 0 || bad_name.unicode_len() > 0 {
            let invalid_chars = bad_namespace.concat(bad_name.as_str());
            Err(IdValidationError::InvalidCharacters { id: self.as_string(), invalid_chars })
        } else if self.namespace.unicode_len() == 0 || self.name.unicode_len() == 0 {
            Err(IdValidationError::EmptyPart(self.as_string()))
        } else {
            Ok(())
        }
    }
}

} // verus!
