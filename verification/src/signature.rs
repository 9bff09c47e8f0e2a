//! The handler-signature cache: per-route static facts recorded once at
//! startup so that no reflection happens on the request path, and the
//! coercion table's integer parser.

use vstd::prelude::*;
use crate::text::string_eq;

verus! {

/// The declared kind of a handler parameter, the coercion table's key.
#[derive(Clone, Copy, PartialEq, Eq, Structural, Debug)]
pub enum ParamKind {
    /// Coerced with the integer parser.
    IntKind,
    /// Passed through as text.
    TextKind,
    /// A fresh background-task object is injected.
    BackgroundTaskKind,
    /// Built from a matching multipart file field.
    UploadFileKind,
    /// A body schema: the body is validated against it.
    ModelKind,
}

/// Static facts about one handler, computed once per route at startup.
pub struct HandlerSignature {
    /// Declared parameter names, in declaration order.
    pub param_names: Vec<String>,
    /// The declared kind of each parameter, positionally parallel to
    /// `param_names`; `None` for an undeclared type.
    pub param_kinds: Vec<Option<ParamKind>>,
    /// Whether the handler is asynchronous (drives the choice of running
    /// it on the thread's cooperative loop).
    pub is_async: bool,
    /// Whether any parameter default marks an injected dependency.
    pub has_depends: bool,
}

impl HandlerSignature {
    /// Well-formed: one kind per name, names distinct.
    pub open spec fn wf(&self) -> bool {
        &&& self.param_kinds@.len() == self.param_names@.len()
        &&& forall|i: int, j: int|
            0 <= i < j < self.param_names@.len() ==> self.param_names@[i]@ != self.param_names@[j]@
    }

    pub open spec fn spec_names(&self) -> Seq<Seq<char>> {
        self.param_names@.map_values(|s: String| s@)
    }

    /// Whether some parameter is named `name`.
    pub open spec fn spec_has_param(&self, name: Seq<char>) -> bool {
        exists|i: int| 0 <= i < self.spec_names().len() && self.spec_names()[i] == name
    }

    /// The declared kind of the parameter named `name` (`None` when the
    /// parameter is absent or has no declared type).
    pub open spec fn spec_kind_of(&self, name: Seq<char>) -> Option<ParamKind> {
        if exists|i: int| 0 <= i < self.spec_names().len() && self.spec_names()[i] == name {
            let i = choose|i: int| 0 <= i < self.spec_names().len() && self.spec_names()[i] == name;
            self.param_kinds@[i]
        } else {
            None
        }
    }

    pub fn new(
        param_names: Vec<String>,
        param_kinds: Vec<Option<ParamKind>>,
        is_async: bool,
        has_depends: bool,
    ) -> (r: Result<HandlerSignature, String>)
        ensures
            match r {
                Ok(sig) => {
                    &&& sig.wf()
                    &&& sig.param_names == param_names
                    &&& sig.param_kinds == param_kinds
                    &&& sig.is_async == is_async
                    &&& sig.has_depends == has_depends
                },
                Err(_) => param_kinds@.len() != param_names@.len() || exists|i: int, j: int|
                    0 <= i < j < param_names@.len() && param_names@[i]@ == param_names@[j]@,
            },
    {
        if param_kinds.len() != param_names.len() {
            return Err(String::from_str("one declared kind is needed per parameter name"));
        }
        let n = param_names.len();
        let mut j: usize = 0;
        while j < n
            invariant
                n == param_names@.len(),
                j <= n,
                forall|a: int, b: int| 0 <= a < b < j ==> param_names@[a]@ != param_names@[b]@,
            decreases n - j,
        {
            let mut i: usize = 0;
            while i < j
                invariant
                    n == param_names@.len(),
                    i <= j < n,
                    forall|a: int| 0 <= a < i ==> param_names@[a]@ != param_names@[j as int]@,
                decreases j - i,
            {
                if string_eq(&param_names[i], param_names[j].as_str()) {
                    return Err(String::from_str("duplicate parameter name"));
                }
                i += 1;
            }
            j += 1;
        }
        Ok(HandlerSignature { param_names, param_kinds, is_async, has_depends })
    }

    /// Whether some parameter is named `name`.
    pub fn has_param(&self, name: &str) -> (r: bool)
        ensures
            r == self.spec_has_param(name@),
    {
        let n = self.param_names.len();
        let mut i: usize = 0;
        while i < n
            invariant
                n == self.param_names@.len(),
                i <= n,
                forall|j: int| 0 <= j < i ==> self.spec_names()[j] != name@,
            decreases n - i,
        {
            if string_eq(&self.param_names[i], name) {
                proof {
                    assert(self.spec_names()[i as int] == name@);
                }
                return true;
            }
            i += 1;
        }
        false
    }

    /// The declared kind of the parameter named `name`.
    pub fn kind_of(&self, name: &str) -> (r: Option<ParamKind>)
        requires
            self.wf(),
        ensures
            r == self.spec_kind_of(name@),
    {
        let n = self.param_names.len();
        let mut i: usize = 0;
        while i < n
            invariant
                self.wf(),
                n == self.param_names@.len(),
                i <= n,
                forall|j: int| 0 <= j < i ==> self.spec_names()[j] != name@,
            decreases n - i,
        {
            if string_eq(&self.param_names[i], name) {
                proof {
                    assert(self.spec_names()[i as int] == name@);
                    let w = choose|w: int|
                        0 <= w < self.spec_names().len() && self.spec_names()[w] == name@;
                    assert(w == i as int);
                }
                return self.param_kinds[i];
            }
            i += 1;
        }
        proof {
            assert(!self.spec_has_param(name@));
        }
        None
    }

    /// The request context is built only when middleware is registered or
    /// a parameter is literally named `request` (the cost-avoidance rule).
    pub fn needs_request(&self, middleware_count: usize) -> (r: bool)
        ensures
            r == (middleware_count > 0 || self.spec_has_param("request"@)),
    {
        middleware_count > 0 || self.has_param("request")
    }

    /// The body is read only when a parameter is named `body`.
    pub fn needs_body(&self) -> (r: bool)
        ensures
            r == self.spec_has_param("body"@),
    {
        self.has_param("body")
    }
}

/// An ASCII decimal digit.
pub open spec fn is_digit(c: char) -> bool {
    '0' <= c && c <= '9'
}

pub open spec fn digit_val(c: char) -> int {
    c as u32 - 48
}

/// The value of a digit string, most significant digit first.
pub open spec fn digits_value(s: Seq<char>) -> int
    decreases s.len(),
{
    if s.len() == 0 {
        0
    } else {
        digits_value(s.drop_last()) * 10 + digit_val(s.last())
    }
}

pub open spec fn all_digits(s: Seq<char>) -> bool {
    s.len() > 0 && forall|i: int| 0 <= i < s.len() ==> is_digit(s[i])
}

/// What the coercion table's integer parser accepts: an optional sign
/// followed by one or more ASCII digits, and its mathematical value.
pub open spec fn spec_parse_int(s: Seq<char>) -> Option<int> {
    if all_digits(s) {
        Some(digits_value(s))
    } else if s.len() >= 1 && s[0] == '-' && all_digits(s.skip(1)) {
        Some(-digits_value(s.skip(1)))
    } else if s.len() >= 1 && s[0] == '+' && all_digits(s.skip(1)) {
        Some(digits_value(s.skip(1)))
    } else {
        None
    }
}

proof fn lemma_digits_value_nonneg(s: Seq<char>)
    requires
        forall|i: int| 0 <= i < s.len() ==> is_digit(s[i]),
    ensures
        digits_value(s) >= 0,
    decreases s.len(),
{
    if s.len() > 0 {
        let t = s.drop_last();
        assert(forall|i: int| 0 <= i < t.len() ==> is_digit(#[trigger] t[i]) && t[i] == s[i]);
        lemma_digits_value_nonneg(t);
        assert(is_digit(s.last()));
    }
}

/// Parse the digit run `s[from..]` as an unsigned value, reporting
/// overflow past `u64` exactly.
fn parse_digits(s: &str, from: usize) -> (r: Option<u64>)
    requires
        from < s@.len(),
    ensures
        match r {
            Some(v) => all_digits(s@.skip(from as int)) && v == digits_value(s@.skip(from as int)),
            None => !all_digits(s@.skip(from as int)) || digits_value(s@.skip(from as int))
                > u64::MAX,
        },
{
    let ghost d = s@.skip(from as int);
    let n = s.unicode_len();
    let mut acc: u64 = 0;
    let mut overflowed: bool = false;
    let mut i: usize = from;
    while i < n
        invariant
            from <= i <= n,
            n == s@.len(),
            from < n,
            d == s@.skip(from as int),
            forall|j: int| 0 <= j < i - from ==> is_digit(d[j]),
            !overflowed ==> acc == digits_value(d.take(i - from)),
            overflowed ==> digits_value(d.take(i - from)) > u64::MAX,
        decreases n - i,
    {
        let c = s.get_char(i);
        if c < '0' || c > '9' {
            proof {
                assert(d[i - from] == s@[i as int]);
                assert(!is_digit(d[i - from]));
            }
            return None;
        }
        let digit = (c as u32 - 48) as u64;
        proof {
            assert(d[i - from] == s@[i as int]);
            assert(is_digit(d[i - from]));
            assert(d.take(i - from + 1).drop_last() =~= d.take(i - from));
            assert(d.take(i - from + 1).last() == d[i - from]);
            assert(digits_value(d.take(i - from + 1)) == digits_value(d.take(i - from)) * 10
                + digit_val(d[i - from]));
            assert(forall|j: int|
                0 <= j < i - from + 1 ==> is_digit(#[trigger] d.take(i - from + 1)[j]));
            lemma_digits_value_nonneg(d.take(i - from));
        }
        if overflowed {
            proof {
                assert(digits_value(d.take(i - from)) * 10 >= digits_value(d.take(i - from)))
                    by (nonlinear_arith)
                    requires
                        digits_value(d.take(i - from)) > u64::MAX,
                ;
            }
        } else if acc > (u64::MAX - digit) / 10 {
            proof {
                assert(digits_value(d.take(i - from)) * 10 + digit_val(d[i - from]) > u64::MAX)
                    by (nonlinear_arith)
                    requires
                        digits_value(d.take(i - from)) == acc,
                        digit_val(d[i - from]) == digit,
                        acc > (u64::MAX - digit) / 10,
                        0 <= digit <= 9,
                ;
            }
            overflowed = true;
        } else {
            acc = acc * 10 + digit;
        }
        i += 1;
    }
    proof {
        assert(d.take(n - from) =~= d);
        assert(d.len() == n - from > 0);
    }
    if overflowed {
        None
    } else {
        Some(acc)
    }
}

/// Parse text as an integer: an optional `+` or `-` sign, then decimal
/// digits. Fails exactly on malformed text or a value outside `i64`.
pub fn parse_int(s: &str) -> (r: Option<i64>)
    ensures
        match spec_parse_int(s@) {
            Some(v) => if i64::MIN <= v <= i64::MAX {
                r == Some(v as i64)
            } else {
                r is None
            },
            None => r is None,
        },
{
    let n = s.unicode_len();
    if n == 0 {
        return None;
    }
    let first = s.get_char(0);
    if first == '-' {
        if n == 1 {
            return None;
        }
        match parse_digits(s, 1) {
            Some(mag) => {
                proof {
                    assert(!all_digits(s@)) by {
                        assert(!is_digit(s@[0]));
                    }
                }
                if mag > 9223372036854775808u64 {
                    proof {
                        lemma_digits_value_nonneg(s@.skip(1));
                    }
                    None
                } else if mag == 9223372036854775808u64 {
                    Some(i64::MIN)
                } else {
                    Some(-(mag as i64))
                }
            }
            None => {
                proof {
                    if all_digits(s@.skip(1)) {
                        lemma_digits_value_nonneg(s@.skip(1));
                    }
                    assert(!all_digits(s@)) by {
                        assert(!is_digit(s@[0]));
                    }
                }
                None
            }
        }
    } else if first == '+' {
        if n == 1 {
            return None;
        }
        match parse_digits(s, 1) {
            Some(mag) => {
                proof {
                    assert(!all_digits(s@)) by {
                        assert(!is_digit(s@[0]));
                    }
                }
                if mag > 9223372036854775807u64 {
                    None
                } else {
                    Some(mag as i64)
                }
            }
            None => {
                proof {
                    assert(!all_digits(s@)) by {
                        assert(!is_digit(s@[0]));
                    }
                }
                None
            }
        }
    } else {
        match parse_digits(s, 0) {
            Some(mag) => {
                proof {
                    assert(s@.skip(0) =~= s@);
                }
                if mag > 9223372036854775807u64 {
                    None
                } else {
                    Some(mag as i64)
                }
            }
            None => {
                proof {
                    assert(s@.skip(0) =~= s@);
                    if !all_digits(s@) {
                        assert(spec_parse_int(s@) is None) by {
                            assert(s@[0] != '-' && s@[0] != '+');
                        }
                    }
                }
                None
            }
        }
    }
}

} // verus!
