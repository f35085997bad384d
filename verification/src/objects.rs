//! The typed value model: the closed set of runtime value kinds, concrete
//! values, and fallible conversion from literal text to a typed value.

use vstd::prelude::*;
use vstd::string::StrSliceExecFns;

verus! {

/// The closed set of value kinds.
#[derive(PartialEq, Eq, Structural, Debug, Clone, Copy)]
pub enum ObjectType {
    Integer,
    Real,
    Vector,
}

/// A concrete runtime value.
#[derive(PartialEq, Debug)]
pub enum Object {
    Integer(Integer),
    Real(Real),
    Vector(Vector),
}

/// A signed 64-bit integer value.
#[derive(PartialEq, Eq, Structural, Debug, Clone, Copy)]
pub struct Integer {
    pub value: i64,
}

/// A double-precision value, held as its IEEE-754 bit pattern so that the
/// dispatch and conversion logic can be stated over plain integers.
#[derive(PartialEq, Eq, Structural, Debug, Clone, Copy)]
pub struct Real {
    pub bits: u64,
}

/// An ordered sequence of values of one declared element kind.
#[derive(PartialEq, Debug)]
pub struct Vector {
    pub components: Vec<Object>,
    pub object_type: ObjectType,
}

impl Object {
    /// The kind of a value, as a specification-level function.
    pub open spec fn kind(&self) -> ObjectType {
        match self {
            Object::Integer(_) => ObjectType::Integer,
            Object::Real(_) => ObjectType::Real,
            Object::Vector(_) => ObjectType::Vector,
        }
    }

    /// The kind of a value.
    pub fn object_type(&self) -> (r: ObjectType)
        ensures
            r == self.kind(),
    {
        match self {
            Object::Integer(_) => ObjectType::Integer,
            Object::Real(_) => ObjectType::Real,
            Object::Vector(_) => ObjectType::Vector,
        }
    }
}

/// An ASCII decimal digit.
pub open spec fn is_digit(c: char) -> bool {
    48 <= (c as u32) && (c as u32) <= 57
}

/// The numeric value of an ASCII decimal digit.
pub open spec fn digit_val(c: char) -> int {
    (c as u32) - 48
}

/// Every character of the sequence is an ASCII decimal digit.
pub open spec fn all_digits(s: Seq<char>) -> bool {
    forall|i: int| 0 <= i < s.len() ==> is_digit(#[trigger] s[i])
}

/// The base-10 value of a digit sequence (most significant digit first).
pub open spec fn digits_val(s: Seq<char>) -> int
    decreases s.len(),
{
    if s.len() == 0 {
        0
    } else {
        10 * digits_val(s.drop_last()) + digit_val(s.last())
    }
}

/// The mathematical integer a text denotes in base 10: an optional sign
/// followed by at least one digit and nothing else. `None` on any other
/// shape.
pub open spec fn parsed_int(s: Seq<char>) -> Option<int> {
    if s.len() == 0 {
        None
    } else if s[0] == '+' || s[0] == '-' {
        let mag = s.subrange(1, s.len() as int);
        if mag.len() > 0 && all_digits(mag) {
            if s[0] == '-' {
                Some(-digits_val(mag))
            } else {
                Some(digits_val(mag))
            }
        } else {
            None
        }
    } else if all_digits(s) {
        Some(digits_val(s))
    } else {
        None
    }
}

/// The signed 64-bit integer a text denotes, `None` where the text is not a
/// base-10 integer or its value does not fit.
pub open spec fn int_of_text(s: Seq<char>) -> Option<i64> {
    match parsed_int(s) {
        Some(v) => if i64::MIN <= v && v <= i64::MAX {
            Some(v as i64)
        } else {
            None
        },
        None => None,
    }
}

/// The value of an all-digit sequence is never negative.
proof fn lemma_digits_val_nonneg(s: Seq<char>)
    requires
        all_digits(s),
    ensures
        digits_val(s) >= 0,
    decreases s.len(),
{
    if s.len() > 0 {
        assert(all_digits(s.drop_last())) by {
            assert(forall|i: int| 0 <= i < s.len() - 1 ==> s.drop_last()[i] == s[i]);
        }
        lemma_digits_val_nonneg(s.drop_last());
    }
}

/// Reading further digits never shrinks the value already read.
proof fn lemma_digits_val_prefix(s: Seq<char>, j: int)
    requires
        all_digits(s),
        0 <= j <= s.len(),
    ensures
        digits_val(s) >= digits_val(s.take(j)),
    decreases s.len() - j,
{
    if j < s.len() {
        assert(all_digits(s.take(j))) by {
            assert(forall|i: int| 0 <= i < j ==> s.take(j)[i] == s[i]);
        }
        lemma_digits_val_nonneg(s.take(j));
        assert(s.take(j + 1).drop_last() =~= s.take(j));
        assert(digits_val(s.take(j + 1)) == 10 * digits_val(s.take(j)) + digit_val(s[j]));
        lemma_digits_val_prefix(s, j + 1);
    } else {
        assert(s.take(j) =~= s);
    }
}

/// The largest value an accumulator may hold before reading one more digit
/// could take a 64-bit magnitude out of range (the quotient of `i64::MIN`
/// by ten).
const ACC_LIMIT: i64 = -922337203685477580;

/// Reads a signed base-10 64-bit integer from text, exactly as
/// `int_of_text` describes: an optional sign, then at least one digit and
/// nothing else, with a value that fits in 64 bits.
pub fn parse_i64(s: &str) -> (r: Option<i64>)
    ensures
        r == int_of_text(s@),
{
    let n = s.unicode_len();
    if n == 0 {
        return None;
    }
    let first = s.get_char(0);
    let negative = first == '-';
    let has_sign = first == '-' || first == '+';
    let start: usize = if has_sign {
        1
    } else {
        0
    };
    if start == n {
        return None;
    }
    let ghost mag = s@.subrange(start as int, n as int);
    proof {
        if !has_sign {
            assert(mag =~= s@);
        }
    }
    let mut acc: i64 = 0;
    let mut index: usize = start;
    while index < n
        invariant
            n == s@.len(),
            start <= index <= n,
            start < n,
            start == 0 || start == 1,
            mag == s@.subrange(start as int, n as int),
            has_sign ==> start == 1 && (s@[0] == '+' || s@[0] == '-'),
            !has_sign ==> start == 0 && !(s@[0] == '+' || s@[0] == '-') && mag == s@,
            negative <==> s@[0] == '-' && has_sign,
            all_digits(mag.take(index - start)),
            acc == -digits_val(mag.take(index - start)),
            acc <= 0,
        decreases n - index,
    {
        let c = s.get_char(index);
        let u = c as u32;
        let ghost k = index - start;
        proof {
            assert(mag[k] == s@[index as int]);
        }
        if u < 48 || u > 57 {
            proof {
                assert(!is_digit(mag[k]));
                assert(!all_digits(mag));
            }
            return None;
        }
        let d = (u - 48) as i64;
        proof {
            assert(mag.take(k + 1).drop_last() =~= mag.take(k));
            assert(mag.take(k + 1).last() == mag[k]);
            assert(digits_val(mag.take(k + 1)) == 10 * digits_val(mag.take(k)) + digit_val(
                mag[k],
            ));
        }
        if acc < ACC_LIMIT || (acc == ACC_LIMIT && d > 8) {
            proof {
                assert(10 * digits_val(mag.take(k)) + digit_val(mag[k]) > 0x8000_0000_0000_0000);
                if all_digits(mag) {
                    lemma_digits_val_prefix(mag, k + 1);
                    assert(digits_val(mag) > 0x8000_0000_0000_0000);
                }
            }
            return None;
        }
        acc = acc * 10 - d;
        proof {
            assert forall|i: int| 0 <= i < k + 1 implies is_digit(#[trigger] mag.take(k + 1)[i]) by {
                if i < k {
                    assert(is_digit(mag.take(k)[i]));
                    assert(mag.take(k)[i] == mag.take(k + 1)[i]);
                } else {
                    assert(mag.take(k + 1)[i] == mag[k]);
                }
            }
            assert(all_digits(mag.take(k + 1)));
        }
        index = index + 1;
    }
    proof {
        assert(mag.take(n - start) =~= mag);
    }
    if negative {
        Some(acc)
    } else {
        if acc == i64::MIN {
            None
        } else {
            Some(-acc)
        }
    }
}

/// The ASCII character of a decimal digit value.
pub open spec fn digit_char(d: int) -> char {
    if d == 0 {
        '0'
    } else if d == 1 {
        '1'
    } else if d == 2 {
        '2'
    } else if d == 3 {
        '3'
    } else if d == 4 {
        '4'
    } else if d == 5 {
        '5'
    } else if d == 6 {
        '6'
    } else if d == 7 {
        '7'
    } else if d == 8 {
        '8'
    } else {
        '9'
    }
}

/// The base-10 digit sequence of a magnitude, most significant first.
pub open spec fn digits_of(m: nat) -> Seq<char>
    decreases m,
{
    if m < 10 {
        seq![digit_char(m as int)]
    } else {
        digits_of(m / 10).push(digit_char((m % 10) as int))
    }
}

/// The decimal text of an integer: a minus sign for a negative value, then
/// the digits of its magnitude.
pub open spec fn dec_text_of(n: int) -> Seq<char> {
    if n < 0 {
        seq!['-'] + digits_of((-n) as nat)
    } else {
        digits_of(n as nat)
    }
}

/// The digit text of a magnitude consists of digits only.
proof fn lemma_digits_of_are_digits(m: nat)
    ensures
        digits_of(m).len() > 0,
        all_digits(digits_of(m)),
    decreases m,
{
    if m >= 10 {
        lemma_digits_of_are_digits(m / 10);
        let s = digits_of(m / 10);
        let c = digit_char((m % 10) as int);
        assert forall|i: int| 0 <= i < s.push(c).len() implies is_digit(
            #[trigger] s.push(c)[i],
        ) by {
            if i < s.len() {
                assert(s.push(c)[i] == s[i]);
            }
        }
    }
}

/// Reading back the digit text of a magnitude gives the magnitude.
proof fn lemma_digits_of_val(m: nat)
    ensures
        digits_val(digits_of(m)) == m,
    decreases m,
{
    if m < 10 {
        assert(digits_of(m).drop_last() =~= Seq::<char>::empty());
        assert(digits_val(Seq::<char>::empty()) == 0);
        assert(digits_of(m).last() == digit_char(m as int));
        assert(digit_val(digit_char(m as int)) == m);
    } else {
        lemma_digits_of_val(m / 10);
        let s = digits_of(m / 10);
        let c = digit_char((m % 10) as int);
        assert(s.push(c).drop_last() =~= s);
        assert(s.push(c).last() == c);
        vstd::arithmetic::div_mod::lemma_fundamental_div_mod(m as int, 10);
    }
}

/// Round trip: the decimal text of any signed 64-bit integer converts back
/// to exactly that integer.
pub proof fn lemma_integer_text_round_trip(n: i64)
    ensures
        int_of_text(dec_text_of(n as int)) == Some(n),
{
    if n >= 0 {
        let s = digits_of(n as nat);
        lemma_digits_of_are_digits(n as nat);
        lemma_digits_of_val(n as nat);
        assert(is_digit(s[0]));
        assert(!(s[0] == '+') && !(s[0] == '-'));
        assert(parsed_int(s) == Some(n as int));
    } else {
        let mag = digits_of((-(n as int)) as nat);
        let s = seq!['-'] + mag;
        lemma_digits_of_are_digits((-(n as int)) as nat);
        lemma_digits_of_val((-(n as int)) as nat);
        assert(s[0] == '-');
        assert(s.subrange(1, s.len() as int) =~= mag);
        assert(parsed_int(s) == Some(-digits_val(mag)));
        assert(-digits_val(mag) == n as int);
    }
}

/// The fault a failed text conversion reports.
#[derive(PartialEq, Eq, Structural, Debug, Clone, Copy)]
pub enum ConversionFailure {
    Error,
}

/// Conversion from a literal text to a concrete value, fallible per target
/// type.
pub trait ConvertFromString: Sized {
    type ErrorType;

    /// The value this type reads from a text, if any.
    spec fn text_result(s: Seq<char>) -> Option<Self>;

    /// Reads a value of this type from a text; fails exactly where
    /// `text_result` gives none.
    fn new(value: &str) -> (r: Result<Self, Self::ErrorType>)
        ensures
            match Self::text_result(value@) {
                Some(v) => r matches Ok(got) && got == v,
                None => r is Err,
            },
    ;
}

impl ConvertFromString for Integer {
    type ErrorType = ConversionFailure;

    open spec fn text_result(s: Seq<char>) -> Option<Integer> {
        match int_of_text(s) {
            Some(n) => Some(Integer { value: n }),
            None => None,
        }
    }

    fn new(value: &str) -> (r: Result<Self, ConversionFailure>) {
        match parse_i64(value) {
            Some(number) => Ok(Integer { value: number }),
            None => Err(ConversionFailure::Error),
        }
    }
}

impl ConvertFromString for Vector {
    type ErrorType = ConversionFailure;

    open spec fn text_result(s: Seq<char>) -> Option<Vector> {
        None
    }

    fn new(_value: &str) -> (r: Result<Self, ConversionFailure>) {
        Err(ConversionFailure::Error)
    }
}

/// A literal text paired with an optional resolved kind.
#[derive(PartialEq, Debug)]
pub struct AnyValue {
    pub object_type: Option<ObjectType>,
    pub text: String,
}

/// The conversion outcome for a real target, as a function of what the
/// real-number reader returned.
pub open spec fn real_conversion(p: Option<u64>) -> Result<Object, ConversionFailure> {
    match p {
        Some(b) => Ok(Object::Real(Real { bits: b })),
        None => Err(ConversionFailure::Error),
    }
}

/// The conversion outcome for an integer target, as a function of the text.
pub open spec fn integer_conversion(s: Seq<char>) -> Result<Object, ConversionFailure> {
    match int_of_text(s) {
        Some(n) => Ok(Object::Integer(Integer { value: n })),
        None => Err(ConversionFailure::Error),
    }
}

impl AnyValue {
    /// Converts the literal text to the requested kind, with no implicit
    /// coercion. An integer target succeeds exactly on base-10 64-bit
    /// integer text; a vector target always fails (vectors have no textual
    /// form at this layer); a real target succeeds exactly where the given
    /// reader turns the text into the bit pattern of a double-precision
    /// value. The reader is passed in because this crate states all its
    /// contracts over plain integers.
    pub fn convert<F: Fn(String) -> Option<u64>>(
        &self,
        target_type: ObjectType,
        parse_real: F,
    ) -> (r: Result<Object, ConversionFailure>)
        requires
            target_type == ObjectType::Real ==> call_requires(parse_real, (self.text,)),
        ensures
            target_type == ObjectType::Integer ==> r == integer_conversion(self.text@),
            target_type == ObjectType::Vector ==> r == Err::<Object, ConversionFailure>(
                ConversionFailure::Error,
            ),
            target_type == ObjectType::Real ==> exists|p: Option<u64>|
                #[trigger] call_ensures(parse_real, (self.text,), p) && r == real_conversion(p),
    {
        match target_type {
            ObjectType::Integer => match Integer::new(self.text.as_str()) {
                Ok(v) => Ok(Object::Integer(v)),
                Err(e) => Err(e),
            },
            ObjectType::Real => {
                let p = parse_real(self.text.clone());
                match p {
                    Some(b) => Ok(Object::Real(Real { bits: b })),
                    None => Err(ConversionFailure::Error),
                }
            },
            ObjectType::Vector => match Vector::new(self.text.as_str()) {
                Ok(v) => Ok(Object::Vector(v)),
                Err(e) => Err(e),
            },
        }
    }
}

/// A named, typed formal parameter of a callable's signature.
#[derive(PartialEq, Debug)]
pub struct Parameter {
    pub name: String,
    pub expected_type: ObjectType,
}

/// The fault dispatch reports when actual argument kinds do not equal the
/// declared parameter kinds.
#[derive(PartialEq, Eq, Structural, Debug, Clone, Copy)]
pub enum CallError {
    TypeMismatch,
}

/// The kinds of a value sequence, in order.
pub open spec fn kinds_of(args: Seq<Object>) -> Seq<ObjectType> {
    args.map_values(|o: Object| o.kind())
}

/// The kind of each value of a list, in order.
fn object_types(args: &Vec<Object>) -> (r: Vec<ObjectType>)
    ensures
        r@ == kinds_of(args@),
{
    let mut r: Vec<ObjectType> = Vec::new();
    let mut i: usize = 0;
    while i < args.len()
        invariant
            i <= args@.len(),
            r@.len() == i,
            forall|j: int| 0 <= j < i ==> r@[j] == (#[trigger] args@[j]).kind(),
        decreases args@.len() - i,
    {
        let t = args[i].object_type();
        r.push(t);
        i = i + 1;
    }
    proof {
        assert(r@ =~= kinds_of(args@));
    }
    r
}

/// Element-wise equality of two kind lists.
fn kinds_equal(a: &Vec<ObjectType>, b: &Vec<ObjectType>) -> (r: bool)
    ensures
        r == (a@ == b@),
{
    if a.len() != b.len() {
        return false;
    }
    let mut i: usize = 0;
    while i < a.len()
        invariant
            a@.len() == b@.len(),
            i <= a@.len(),
            forall|j: int| 0 <= j < i ==> a@[j] == b@[j],
        decreases a@.len() - i,
    {
        if a[i] != b[i] {
            return false;
        }
        i = i + 1;
    }
    proof {
        assert(a@ =~= b@);
    }
    true
}

/// Anything invocable: it declares an ordered parameter signature and an
/// invocation callback from typed values to typed values.
pub trait Callable {
    /// The declared parameter kinds, in order.
    spec fn param_types(&self) -> Seq<ObjectType>;

    /// What the callback asks of its arguments beyond their kinds.
    spec fn callback_req(&self, args: Seq<Object>) -> bool;

    /// What the callback promises of its result.
    spec fn callback_post(&self, args: Seq<Object>, r: Seq<Object>) -> bool;

    /// The declared parameter signature.
    fn parameters(&self) -> (r: Vec<Parameter>)
        ensures
            r@.map_values(|p: Parameter| p.expected_type) == self.param_types(),
    ;

    /// The invocation logic; only ever reached once the kind gate has
    /// passed.
    fn callback(&self, parameters: Vec<Object>) -> (r: Vec<Object>)
        requires
            kinds_of(parameters@) == self.param_types(),
            self.callback_req(parameters@),
        ensures
            self.callback_post(parameters@, r@),
    ;
}

/// The dispatch wrapper over any callable.
pub trait CallableExtension: Callable {
    /// Checks the actual argument kinds against the declared signature:
    /// equal lists invoke the callback and return its results; any
    /// mismatch in length or element is a `TypeMismatch` and the callback
    /// is never invoked.
    fn call(&self, parameters: Vec<Object>) -> (r: Result<Vec<Object>, CallError>)
        requires
            kinds_of(parameters@) == self.param_types() ==> self.callback_req(parameters@),
        ensures
            match r {
                Ok(out) => kinds_of(parameters@) == self.param_types()
                    && self.callback_post(parameters@, out@),
                Err(e) => kinds_of(parameters@) != self.param_types() && e
                    == CallError::TypeMismatch,
            },
    ;
}

impl<T: Callable> CallableExtension for T {
    fn call(&self, parameters: Vec<Object>) -> (r: Result<Vec<Object>, CallError>) {
        let lhs = object_types(&parameters);
        let declared = self.parameters();
        let mut rhs: Vec<ObjectType> = Vec::new();
        let mut i: usize = 0;
        while i < declared.len()
            invariant
                i <= declared@.len(),
                rhs@.len() == i,
                forall|j: int| 0 <= j < i ==> rhs@[j] == (#[trigger] declared@[j]).expected_type,
            decreases declared@.len() - i,
        {
            let t = declared[i].expected_type;
            rhs.push(t);
            i = i + 1;
        }
        proof {
            assert(rhs@ =~= declared@.map_values(|p: Parameter| p.expected_type));
        }
        if kinds_equal(&lhs, &rhs) {
            Ok(self.callback(parameters))
        } else {
            Err(CallError::TypeMismatch)
        }
    }
}

/// A primitive numeric callable: one real-valued parameter, one real
/// result, computed by the wrapped single-argument function on IEEE-754
/// bit patterns.
pub struct PrimitiveFunction<F> {
    pub name: String,
    pub function: F,
}

impl<F: Fn(u64) -> u64> Callable for PrimitiveFunction<F> {
    open spec fn param_types(&self) -> Seq<ObjectType> {
        seq![ObjectType::Real]
    }

    open spec fn callback_req(&self, args: Seq<Object>) -> bool {
        args.len() == 1 ==> match args[0] {
            Object::Real(a) => call_requires(self.function, (a.bits,)),
            _ => true,
        }
    }

    open spec fn callback_post(&self, args: Seq<Object>, r: Seq<Object>) -> bool {
        &&& args.len() == 1
        &&& r.len() == 1
        &&& match (args[0], r[0]) {
            (Object::Real(a), Object::Real(out)) => call_ensures(
                self.function,
                (a.bits,),
                out.bits,
            ),
            _ => false,
        }
    }

    fn parameters(&self) -> (r: Vec<Parameter>) {
        let mut v: Vec<Parameter> = Vec::new();
        v.push(Parameter { name: "arg0".to_owned(), expected_type: ObjectType::Real });
        proof {
            assert(v@.map_values(|p: Parameter| p.expected_type) =~= seq![ObjectType::Real]);
        }
        v
    }

    fn callback(&self, parameters: Vec<Object>) -> (r: Vec<Object>) {
        proof {
            assert(kinds_of(parameters@).len() == 1);
            assert(kinds_of(parameters@)[0] == parameters@[0].kind());
        }
        let first = &parameters[0];
        match first {
            Object::Real(number) => {
                let y = (self.function)(number.bits);
                let out = vec![Object::Real(Real { bits: y })];
                proof {
                    assert(out@ =~= seq![Object::Real(Real { bits: y })]);
                }
                out
            },
            _ => {
                proof {
                    assert(false);
                }
                Vec::new()
            },
        }
    }
}

/// A primitive's declared signature is one real-valued parameter.
///
/// This and the two lemmas after it restate the primitive's open trait
/// definitions; callers holding a concrete wrapped-function type can apply
/// them where the solver does not unfold the trait impl's spec functions
/// on its own.
pub proof fn lemma_primitive_param_types<F: Fn(u64) -> u64>(p: PrimitiveFunction<F>)
    ensures
        p.param_types() == seq![ObjectType::Real],
{
}

/// What a primitive's callback asks of a single real argument: that the
/// wrapped function accepts its bit pattern.
pub proof fn lemma_primitive_callback_req<F: Fn(u64) -> u64>(
    p: PrimitiveFunction<F>,
    args: Seq<Object>,
)
    ensures
        p.callback_req(args) <==> (args.len() == 1 ==> match args[0] {
            Object::Real(a) => call_requires(p.function, (a.bits,)),
            _ => true,
        }),
{
}

/// What a primitive's callback promises: one real result whose bit
/// pattern the wrapped function can return for the argument's bit pattern.
pub proof fn lemma_primitive_callback_post<F: Fn(u64) -> u64>(
    p: PrimitiveFunction<F>,
    args: Seq<Object>,
    r: Seq<Object>,
)
    ensures
        p.callback_post(args, r) <==> (args.len() == 1 && r.len() == 1 && match (
            args[0],
            r[0],
        ) {
            (Object::Real(a), Object::Real(out)) => call_ensures(p.function, (a.bits,), out.bits),
            _ => false,
        }),
{
}

/// The dispatch gate for a primitive: its declared signature matches the
/// actual arguments exactly when there is a single argument and it is a
/// real value — so zero arguments, two or more arguments, or one argument
/// of any other kind are rejected before the callback is reached.
pub proof fn lemma_primitive_dispatch_gate<F: Fn(u64) -> u64>(
    p: PrimitiveFunction<F>,
    args: Seq<Object>,
)
    ensures
        (kinds_of(args) == p.param_types()) <==> (args.len() == 1 && args[0] is Real),
{
    if args.len() == 1 && args[0] is Real {
        assert(kinds_of(args) =~= seq![ObjectType::Real]);
    }
    if kinds_of(args) == p.param_types() {
        assert(kinds_of(args).len() == 1);
        assert(kinds_of(args)[0] == args[0].kind());
    }
}

} // verus!
