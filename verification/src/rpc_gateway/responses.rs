//! Object references and object states in the form in which the gateway
//! hands them to its clients: identifiers in hexadecimal, digests in Base64.

use base64ct::{Base64, Encoding};
use vstd::arithmetic::div_mod::{lemma_mod_breakdown, lemma_small_mod};
use vstd::bytes::{spec_u64_from_le_bytes, spec_u64_to_le_bytes, u64_from_le_bytes, u64_to_le_bytes};
use vstd::prelude::*;
use vstd::string::*;
use crate::base_types::{ObjectDigest, ObjectID, ObjectRef, TransactionDigest};
use crate::error::{SuiError, SuiErrorView};
use crate::object::{Object, Owner};

verus! {

/// The error of the Base64 decoder.
#[verifier::external_type_specification]
#[verifier::external_body]
pub struct ExBase64Error(base64ct::Error);

/// The Base64 text of a sequence of bytes, in the standard alphabet with
/// padding.
pub uninterp spec fn base64_encoding(bytes: Seq<u8>) -> Seq<char>;

/// The bytes that a Base64 text stands for, if it is well formed.
pub uninterp spec fn base64_decoding(text: Seq<char>) -> Option<Seq<u8>>;

/// `Base64::encode_string` of the crate `base64ct`. The result is the
/// standard Base64 text of the input, which depends on the input alone. The
/// crate panics on an input of more than a quarter of the largest length.
#[verifier::external_body]
fn encode_base64(bytes: &Vec<u8>) -> (r: String)
    requires
        bytes@.len() <= usize::MAX / 4,
    ensures
        r@ == base64_encoding(bytes@),
{
    Base64::encode_string(bytes)
}

/// `Base64::decode_vec` of the crate `base64ct`. The outcome depends on the
/// input alone: the decoded bytes, or an error where the text is not well
/// formed.
#[verifier::external_body]
fn decode_base64(text: &str) -> (r: Result<Vec<u8>, base64ct::Error>)
    ensures
        match r {
            Ok(bytes) => base64_decoding(text@) == Some(bytes@),
            Err(_) => base64_decoding(text@) is None,
        },
{
    Base64::decode_vec(text)
}

/// The hexadecimal digit of a number below sixteen, in lower case.
pub open spec fn hex_digit(n: int) -> char {
    if n == 0 {
        '0'
    } else if n == 1 {
        '1'
    } else if n == 2 {
        '2'
    } else if n == 3 {
        '3'
    } else if n == 4 {
        '4'
    } else if n == 5 {
        '5'
    } else if n == 6 {
        '6'
    } else if n == 7 {
        '7'
    } else if n == 8 {
        '8'
    } else if n == 9 {
        '9'
    } else if n == 10 {
        'a'
    } else if n == 11 {
        'b'
    } else if n == 12 {
        'c'
    } else if n == 13 {
        'd'
    } else if n == 14 {
        'e'
    } else {
        'f'
    }
}

/// The value of a hexadecimal digit, in lower or upper case.
pub open spec fn hex_digit_value(c: char) -> Option<int> {
    if c == '0' {
        Some(0)
    } else if c == '1' {
        Some(1)
    } else if c == '2' {
        Some(2)
    } else if c == '3' {
        Some(3)
    } else if c == '4' {
        Some(4)
    } else if c == '5' {
        Some(5)
    } else if c == '6' {
        Some(6)
    } else if c == '7' {
        Some(7)
    } else if c == '8' {
        Some(8)
    } else if c == '9' {
        Some(9)
    } else if c == 'a' || c == 'A' {
        Some(10)
    } else if c == 'b' || c == 'B' {
        Some(11)
    } else if c == 'c' || c == 'C' {
        Some(12)
    } else if c == 'd' || c == 'D' {
        Some(13)
    } else if c == 'e' || c == 'E' {
        Some(14)
    } else if c == 'f' || c == 'F' {
        Some(15)
    } else {
        None
    }
}

/// The last `width` hexadecimal digits of `value`, the most significant
/// first.
pub open spec fn hex_digits(value: int, width: nat) -> Seq<char>
    decreases width,
{
    if width == 0 {
        Seq::empty()
    } else {
        hex_digits(value / 16, (width - 1) as nat).push(hex_digit(value % 16))
    }
}

/// The number that hexadecimal digits stand for, the most significant
/// first, if all of them are digits.
pub open spec fn hex_value(digits: Seq<char>) -> Option<int>
    decreases digits.len(),
{
    if digits.len() == 0 {
        Some(0)
    } else {
        match (hex_value(digits.drop_last()), hex_digit_value(digits.last())) {
            (Some(high), Some(low)) => Some(high * 16 + low),
            _ => None,
        }
    }
}

/// The hexadecimal form of an object identifier: sixteen digits in lower
/// case.
pub open spec fn object_id_hex(id: ObjectID) -> Seq<char> {
    hex_digits(id as int, 16)
}

/// The hexadecimal literal of an object identifier: `0x` and sixteen digits
/// in lower case.
pub open spec fn object_id_literal(id: ObjectID) -> Seq<char> {
    seq!['0', 'x'] + object_id_hex(id)
}

/// The object identifier that a text stands for: sixteen hexadecimal
/// digits, or `0x` and one to sixteen hexadecimal digits.
pub open spec fn parse_object_id(text: Seq<char>) -> Option<ObjectID> {
    let digits = if text.len() >= 2 && text[0] == '0' && text[1] == 'x' {
        text.skip(2)
    } else {
        text
    };
    let length_fits = if text.len() >= 2 && text[0] == '0' && text[1] == 'x' {
        1 <= digits.len() <= 16
    } else {
        digits.len() == 16
    };
    match hex_value(digits) {
        Some(value) => if length_fits && value <= u64::MAX {
            Some(value as ObjectID)
        } else {
            None
        },
        None => None,
    }
}

/// A number of hexadecimal digits is at least the number of all but the
/// last of them, and no digit makes it negative.
pub proof fn lemma_hex_value_grows(digits: Seq<char>)
    ensures
        hex_value(digits) matches Some(v) ==> v >= 0,
        digits.len() > 0 && hex_value(digits) is Some ==> hex_value(digits.drop_last()) is Some
            && hex_value(digits.drop_last())->0 <= hex_value(digits)->0,
    decreases digits.len(),
{
    if digits.len() > 0 {
        lemma_hex_value_grows(digits.drop_last());
    }
}

/// A failure or an excess among the first `k` digits is one of all digits.
pub proof fn lemma_hex_value_prefix(digits: Seq<char>, k: int)
    requires
        0 <= k <= digits.len(),
    ensures
        hex_value(digits.subrange(0, k)) is None ==> hex_value(digits) is None,
        hex_value(digits) matches Some(v) ==> hex_value(digits.subrange(0, k))->0 <= v,
    decreases digits.len() - k,
{
    if k == digits.len() {
        assert(digits.subrange(0, k) == digits);
    } else {
        assert(digits.subrange(0, k + 1).drop_last() == digits.subrange(0, k));
        lemma_hex_value_prefix(digits, k + 1);
        lemma_hex_value_grows(digits.subrange(0, k + 1));
    }
}

/// Sixteen to the power of `width`.
pub open spec fn pow16(width: nat) -> int
    decreases width,
{
    if width == 0 {
        1
    } else {
        16 * pow16((width - 1) as nat)
    }
}

/// The digits of a number are as many as asked for, each is a hexadecimal
/// digit and none is an `x`, and together they stand for the number modulo
/// sixteen to the power of their count.
pub proof fn lemma_hex_digits_value(value: int, width: nat)
    requires
        value >= 0,
    ensures
        hex_digits(value, width).len() == width,
        pow16(width) > 0,
        hex_value(hex_digits(value, width)) == Some(value % pow16(width)),
        forall|i: int| 0 <= i < width ==> #[trigger] hex_digits(value, width)[i] != 'x',
    decreases width,
{
    if width > 0 {
        let rest = (width - 1) as nat;
        let front = hex_digits(value / 16, rest);
        let digits = hex_digits(value, width);
        lemma_hex_digits_value(value / 16, rest);
        assert(digits.drop_last() == front);
        assert(digits.last() == hex_digit(value % 16));
        assert(hex_digit_value(hex_digit(value % 16)) == Some(value % 16));
        lemma_mod_breakdown(value, 16, pow16(rest));
        assert forall|i: int| 0 <= i < width implies #[trigger] digits[i] != 'x' by {
            if i < rest {
                assert(digits[i] == front[i]);
            }
        }
    }
}

/// An object identifier is read back from both of its hexadecimal forms.
pub proof fn lemma_object_id_round_trip(id: ObjectID)
    ensures
        parse_object_id(object_id_hex(id)) == Some(id),
        parse_object_id(object_id_literal(id)) == Some(id),
{
    let digits = object_id_hex(id);
    lemma_hex_digits_value(id as int, 16);
    assert(pow16(16) == 0x1_0000_0000_0000_0000) by {
        assert(pow16(0) == 1);
        assert(pow16(1) == 16);
        assert(pow16(2) == 0x100);
        assert(pow16(3) == 0x1000);
        assert(pow16(4) == 0x1_0000);
        assert(pow16(5) == 0x10_0000);
        assert(pow16(6) == 0x100_0000);
        assert(pow16(7) == 0x1000_0000);
        assert(pow16(8) == 0x1_0000_0000);
        assert(pow16(9) == 0x10_0000_0000);
        assert(pow16(10) == 0x100_0000_0000);
        assert(pow16(11) == 0x1000_0000_0000);
        assert(pow16(12) == 0x1_0000_0000_0000);
        assert(pow16(13) == 0x10_0000_0000_0000);
        assert(pow16(14) == 0x100_0000_0000_0000);
        assert(pow16(15) == 0x1000_0000_0000_0000);
    }
    lemma_small_mod(id as nat, pow16(16) as nat);
    assert(digits[1] != 'x');
    let literal = object_id_literal(id);
    assert(literal.len() == 18);
    assert(literal[0] == '0' && literal[1] == 'x');
    assert(literal.skip(2) == digits);
}

fn digit_str(n: u8) -> (r: &'static str)
    requires
        n < 16,
    ensures
        r@ == seq![hex_digit(n as int)],
{
    proof {
        reveal_strlit("0");
        reveal_strlit("1");
        reveal_strlit("2");
        reveal_strlit("3");
        reveal_strlit("4");
        reveal_strlit("5");
        reveal_strlit("6");
        reveal_strlit("7");
        reveal_strlit("8");
        reveal_strlit("9");
        reveal_strlit("a");
        reveal_strlit("b");
        reveal_strlit("c");
        reveal_strlit("d");
        reveal_strlit("e");
        reveal_strlit("f");
    }
    let r = if n == 0 {
        "0"
    } else if n == 1 {
        "1"
    } else if n == 2 {
        "2"
    } else if n == 3 {
        "3"
    } else if n == 4 {
        "4"
    } else if n == 5 {
        "5"
    } else if n == 6 {
        "6"
    } else if n == 7 {
        "7"
    } else if n == 8 {
        "8"
    } else if n == 9 {
        "9"
    } else if n == 10 {
        "a"
    } else if n == 11 {
        "b"
    } else if n == 12 {
        "c"
    } else if n == 13 {
        "d"
    } else if n == 14 {
        "e"
    } else {
        "f"
    };
    assert(r@ =~= seq![hex_digit(n as int)]);
    r
}

fn write_hex(value: u64, width: u8, out: &mut String)
    ensures
        final(out)@ == old(out)@ + hex_digits(value as int, width as nat),
    decreases width,
{
    if width > 0 {
        write_hex(value / 16, width - 1, out);
        out.append(digit_str((value % 16) as u8));
        assert(out@ == old(out)@ + hex_digits(value as int, width as nat));
    } else {
        assert(out@ == old(out)@ + hex_digits(value as int, 0));
    }
}

fn digit_value(c: char) -> (r: Option<u8>)
    ensures
        match r {
            Some(v) => hex_digit_value(c) == Some(v as int) && v < 16,
            None => hex_digit_value(c) is None,
        },
{
    if c == '0' {
        Some(0)
    } else if c == '1' {
        Some(1)
    } else if c == '2' {
        Some(2)
    } else if c == '3' {
        Some(3)
    } else if c == '4' {
        Some(4)
    } else if c == '5' {
        Some(5)
    } else if c == '6' {
        Some(6)
    } else if c == '7' {
        Some(7)
    } else if c == '8' {
        Some(8)
    } else if c == '9' {
        Some(9)
    } else if c == 'a' || c == 'A' {
        Some(10)
    } else if c == 'b' || c == 'B' {
        Some(11)
    } else if c == 'c' || c == 'C' {
        Some(12)
    } else if c == 'd' || c == 'D' {
        Some(13)
    } else if c == 'e' || c == 'E' {
        Some(14)
    } else if c == 'f' || c == 'F' {
        Some(15)
    } else {
        None
    }
}

/// The hexadecimal form of an object identifier: sixteen digits in lower
/// case.
pub fn object_id_to_hex(id: ObjectID) -> (r: String)
    ensures
        r@ == object_id_hex(id),
{
    let mut r = String::new();
    write_hex(id, 16, &mut r);
    assert(r@ == Seq::<char>::empty() + object_id_hex(id));
    r
}

/// The hexadecimal literal of an object identifier: `0x` and sixteen digits
/// in lower case.
pub fn object_id_to_literal(id: ObjectID) -> (r: String)
    ensures
        r@ == object_id_literal(id),
{
    proof {
        reveal_strlit("0x");
    }
    let mut r = String::from_str("0x");
    assert(r@ =~= seq!['0', 'x']);
    write_hex(id, 16, &mut r);
    r
}

/// Reads an object identifier: sixteen hexadecimal digits, or `0x` and one
/// to sixteen hexadecimal digits.
#[verifier::loop_isolation(false)]
pub fn object_id_from_hex(text: &str) -> (r: Result<ObjectID, SuiError>)
    ensures
        r == match parse_object_id(text@) {
            Some(id) => Ok::<ObjectID, SuiError>(id),
            None => Err::<ObjectID, SuiError>(SuiError::ObjectIDParseError),
        },
{
    let n = text.unicode_len();
    let prefixed = n >= 2 && text.get_char(0) == '0' && text.get_char(1) == 'x';
    let start: usize = if prefixed {
        2
    } else {
        0
    };
    let ghost digits = if prefixed {
        text@.skip(2)
    } else {
        text@
    };
    let count = n - start;
    let length_fits = if prefixed {
        1 <= count && count <= 16
    } else {
        count == 16
    };
    if !length_fits {
        return Err(SuiError::ObjectIDParseError);
    }
    let mut value: u64 = 0;
    let mut i: usize = 0;
    while i < count
        invariant
            n == text@.len(),
            start + count == n,
            digits == text@.skip(start as int),
            digits.len() == count,
            i <= count,
            count <= 16,
            hex_value(digits.subrange(0, i as int)) == Some(value as int),
        decreases count - i,
    {
        let c = text.get_char(start + i);
        assert(digits[i as int] == c);
        assert(digits.subrange(0, i + 1).drop_last() == digits.subrange(0, i as int));
        assert(digits.subrange(0, i + 1).last() == c);
        let low = match digit_value(c) {
            Some(v) => v,
            None => {
                proof {
                    lemma_hex_value_prefix(digits, i + 1);
                }
                return Err(SuiError::ObjectIDParseError);
            },
        };
        if value > (u64::MAX - low as u64) / 16 {
            proof {
                lemma_hex_value_prefix(digits, i + 1);
            }
            return Err(SuiError::ObjectIDParseError);
        }
        value = value * 16 + low as u64;
        i += 1;
    }
    assert(digits.subrange(0, i as int) == digits);
    Ok(value)
}

/// The bytes of a digest.
pub fn digest_to_bytes(digest: ObjectDigest) -> (r: Vec<u8>)
    ensures
        r@ == spec_u64_to_le_bytes(digest),
        r@.len() == 8,
{
    u64_to_le_bytes(digest)
}

/// The digest that bytes stand for. There is none unless the bytes are as
/// many as a digest has.
pub fn digest_from_bytes(bytes: &Vec<u8>) -> (r: Result<ObjectDigest, SuiError>)
    ensures
        r == if bytes@.len() == 8 {
            Ok::<ObjectDigest, SuiError>(spec_u64_from_le_bytes(bytes@))
        } else {
            Err::<ObjectDigest, SuiError>(SuiError::InvalidTransactionDigest)
        },
{
    if bytes.len() != 8 {
        return Err(SuiError::InvalidTransactionDigest);
    }
    Ok(u64_from_le_bytes(bytes.as_slice()))
}

/// An object reference as the gateway shows it.
#[derive(Debug, PartialEq, Eq)]
pub struct NamedObjectRef {
    /// The object identifier as a hexadecimal literal.
    object_id: String,
    /// The version of the object.
    version: u64,
    /// The digest of the object in Base64.
    digest: String,
}

/// The view of a [`NamedObjectRef`].
pub struct NamedObjectRefView {
    pub object_id: Seq<char>,
    pub version: u64,
    pub digest: Seq<char>,
}

impl View for NamedObjectRef {
    type V = NamedObjectRefView;

    closed spec fn view(&self) -> NamedObjectRefView {
        NamedObjectRefView { object_id: self.object_id@, version: self.version, digest: self.digest@ }
    }
}

impl NamedObjectRefView {
    /// The form in which the gateway shows the object reference `r`.
    pub open spec fn of(r: ObjectRef) -> NamedObjectRefView {
        NamedObjectRefView {
            object_id: object_id_literal(r.0),
            version: r.1,
            digest: base64_encoding(spec_u64_to_le_bytes(r.2)),
        }
    }

    /// The object reference that the shown form stands for, given the bytes
    /// that its digest decodes to, or the reason why it stands for none.
    pub open spec fn value(&self, digest_bytes: Option<Seq<u8>>) -> Result<ObjectRef, SuiErrorView> {
        match parse_object_id(self.object_id) {
            None => Err(SuiErrorView::ObjectIDParseError),
            Some(id) => match digest_bytes {
                None => Err(SuiErrorView::Base64Error),
                Some(bytes) => if bytes.len() == 8 {
                    Ok((id, self.version, spec_u64_from_le_bytes(bytes)))
                } else {
                    Err(SuiErrorView::InvalidTransactionDigest)
                },
            },
        }
    }
}

impl NamedObjectRef {
    /// A shown object reference of the given parts.
    pub fn new(object_id: String, version: u64, digest: String) -> (r: Self)
        ensures
            r@ == (NamedObjectRefView { object_id: object_id@, version, digest: digest@ }),
    {
        NamedObjectRef { object_id, version, digest }
    }

    /// The object identifier as a hexadecimal literal.
    pub fn object_id(&self) -> (r: &String)
        ensures
            r@ == self@.object_id,
    {
        &self.object_id
    }

    /// The version of the object.
    pub fn version(&self) -> (r: u64)
        ensures
            r == self@.version,
    {
        self.version
    }

    /// The digest of the object in Base64.
    pub fn digest(&self) -> (r: &String)
        ensures
            r@ == self@.digest,
    {
        &self.digest
    }

    /// The object reference that the shown form stands for, given what the
    /// Base64 decoder made of its digest.
    pub fn with_decoded_digest(self, decoded: Option<Vec<u8>>) -> (r: Result<ObjectRef, SuiError>)
        ensures
            match r {
                Ok(object_ref) => self@.value(
                    match decoded {
                        Some(bytes) => Some(bytes@),
                        None => None,
                    },
                ) == Ok::<ObjectRef, SuiErrorView>(object_ref),
                Err(e) => self@.value(
                    match decoded {
                        Some(bytes) => Some(bytes@),
                        None => None,
                    },
                ) == Err::<ObjectRef, SuiErrorView>(e@),
            },
    {
        let id = match object_id_from_hex(self.object_id.as_str()) {
            Ok(id) => id,
            Err(e) => {
                return Err(e);
            },
        };
        let bytes = match decoded {
            Some(bytes) => bytes,
            None => {
                return Err(SuiError::Base64Error);
            },
        };
        let digest = match digest_from_bytes(&bytes) {
            Ok(d) => d,
            Err(e) => {
                return Err(e);
            },
        };
        Ok((id, self.version, digest))
    }

    /// The object reference that the shown form stands for: the identifier
    /// read from its hexadecimal form, the version, and the digest of the
    /// bytes that the Base64 text decodes to.
    pub fn to_object_ref(self) -> (r: Result<ObjectRef, SuiError>)
        ensures
            match r {
                Ok(object_ref) => self@.value(base64_decoding(self@.digest)) == Ok::<
                    ObjectRef,
                    SuiErrorView,
                >(object_ref),
                Err(e) => self@.value(base64_decoding(self@.digest)) == Err::<ObjectRef, SuiErrorView>(
                    e@,
                ),
            },
    {
        let decoded = match decode_base64(self.digest.as_str()) {
            Ok(bytes) => Some(bytes),
            Err(_) => None,
        };
        self.with_decoded_digest(decoded)
    }

    /// The form in which the gateway shows an object reference.
    pub fn from_object_ref(object_ref: ObjectRef) -> (r: Self)
        ensures
            r@ == NamedObjectRefView::of(object_ref),
    {
        let (object_id, version, digest) = object_ref;
        let bytes = digest_to_bytes(digest);
        NamedObjectRef {
            object_id: object_id_to_literal(object_id),
            version,
            digest: encode_base64(&bytes),
        }
    }
}

/// The references of a list of objects, as the gateway shows them.
#[derive(Debug, PartialEq, Eq)]
pub struct ObjectResponse {
    /// The references.
    pub objects: Vec<NamedObjectRef>,
}

/// The state of an object that is in the store, as the gateway shows it.
#[derive(Debug, PartialEq, Eq)]
pub struct ObjectExistsResponse {
    object_ref: NamedObjectRef,
    owner: Owner,
    previous_transaction: TransactionDigest,
}

/// The view of an [`ObjectExistsResponse`].
pub struct ObjectExistsResponseView {
    pub object_ref: NamedObjectRefView,
    pub owner: Owner,
    pub previous_transaction: TransactionDigest,
}

impl View for ObjectExistsResponse {
    type V = ObjectExistsResponseView;

    closed spec fn view(&self) -> ObjectExistsResponseView {
        ObjectExistsResponseView {
            object_ref: self.object_ref@,
            owner: self.owner,
            previous_transaction: self.previous_transaction,
        }
    }
}

/// What the gateway answers about an object that is not in the store.
#[derive(Debug, PartialEq, Eq)]
pub struct ObjectNotExistsResponse {
    /// The object identifier in hexadecimal.
    object_id: String,
}

impl View for ObjectNotExistsResponse {
    type V = Seq<char>;

    closed spec fn view(&self) -> Seq<char> {
        self.object_id@
    }
}

impl ObjectNotExistsResponse {
    /// The answer about the missing object `object_id`.
    pub fn new(object_id: ObjectID) -> (r: Self)
        ensures
            r@ == object_id_hex(object_id),
    {
        ObjectNotExistsResponse { object_id: object_id_to_hex(object_id) }
    }

    /// The object identifier in hexadecimal.
    pub fn object_id(&self) -> (r: &String)
        ensures
            r@ == self@,
    {
        &self.object_id
    }
}

/// What a read of an object finds.
#[derive(Clone, Copy, Debug, PartialEq, Eq)]
pub enum ObjectRead {
    /// The object is in the store, with this reference.
    Exists(ObjectRef, Object),
    /// No object with this identifier has ever been in the store.
    NotExists(ObjectID),
    /// The object has been deleted; this was its last reference.
    Deleted(ObjectRef),
}

/// What the gateway answers to a request for the state of an object.
#[derive(Debug, PartialEq, Eq)]
pub enum GetObjectInfoResponse {
    /// The object is in the store.
    Exists(ObjectExistsResponse),
    /// No such object has ever been in the store.
    NotExists(ObjectNotExistsResponse),
    /// The object has been deleted.
    Deleted(NamedObjectRef),
}

/// The view of a [`GetObjectInfoResponse`].
pub enum GetObjectInfoResponseView {
    Exists(ObjectExistsResponseView),
    NotExists(Seq<char>),
    Deleted(NamedObjectRefView),
}

impl View for GetObjectInfoResponse {
    type V = GetObjectInfoResponseView;

    open spec fn view(&self) -> GetObjectInfoResponseView {
        match self {
            GetObjectInfoResponse::Exists(e) => GetObjectInfoResponseView::Exists(e@),
            GetObjectInfoResponse::NotExists(n) => GetObjectInfoResponseView::NotExists(n@),
            GetObjectInfoResponse::Deleted(d) => GetObjectInfoResponseView::Deleted(d@),
        }
    }
}

impl GetObjectInfoResponse {
    /// The answer of the gateway to what a read of an object found.
    pub fn from_object_read(read: ObjectRead) -> (r: Self)
        ensures
            r@ == match read {
                ObjectRead::Exists(object_ref, object) => GetObjectInfoResponseView::Exists(
                    ObjectExistsResponseView {
                        object_ref: NamedObjectRefView::of(object_ref),
                        owner: object.owner,
                        previous_transaction: object.previous_transaction,
                    },
                ),
                ObjectRead::NotExists(object_id) => GetObjectInfoResponseView::NotExists(
                    object_id_hex(object_id),
                ),
                ObjectRead::Deleted(object_ref) => GetObjectInfoResponseView::Deleted(
                    NamedObjectRefView::of(object_ref),
                ),
            },
    {
        match read {
            ObjectRead::Exists(object_ref, object) => GetObjectInfoResponse::Exists(
                ObjectExistsResponse {
                    object_ref: NamedObjectRef::from_object_ref(object_ref),
                    owner: object.owner,
                    previous_transaction: object.previous_transaction,
                },
            ),
            ObjectRead::NotExists(object_id) => GetObjectInfoResponse::NotExists(
                ObjectNotExistsResponse::new(object_id),
            ),
            ObjectRead::Deleted(object_ref) => GetObjectInfoResponse::Deleted(
                NamedObjectRef::from_object_ref(object_ref),
            ),
        }
    }
}

/// The name of a type as text.
#[derive(Debug, PartialEq, Eq)]
pub struct SuiTypeTag(String);

impl View for SuiTypeTag {
    type V = Seq<char>;

    closed spec fn view(&self) -> Seq<char> {
        self.0@
    }
}

impl SuiTypeTag {
    /// The type name `text`.
    pub fn new(text: String) -> (r: Self)
        ensures
            r@ == text@,
    {
        SuiTypeTag(text)
    }

    /// The text of the type name.
    pub fn as_str(&self) -> (r: &str)
        ensures
            r@ == self@,
    {
        self.0.as_str()
    }
}

} // verus!
