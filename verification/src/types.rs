//! The message model: envelopes, descriptors and the protocol error type.
//!
//! Strings live as raw byte vectors, and a device handle is the canonical
//! text of a 128-bit identifier (32 hexadecimal digits in five hyphenated
//! groups), validated on the way in.  Every type has a mathematical model
//! over `Seq` that the codec's contracts speak about.

use vstd::prelude::*;
use crate::json::JsonValue;
use crate::json::JVal;
use crate::json::jv_seq;
use crate::json::is_hex;

verus! {

/// The ways a call can fail, mirroring the protocol contract: an oversized
/// outbound frame, a missing delimiter, a payload that does not decode or
/// does not match the expected variant, and a failed device lookup.
#[derive(Clone, Copy, Debug, PartialEq, Eq, Structural)]
pub enum HLAPIError {
    PayloadTooLarge,
    UnexpectedEof,
    InvalidData,
    NotFound,
}

/// The empty parameter list marker for calls that send no arguments.
pub struct Empty {}

/// A payload that never occurs: the library offers no way to construct one.
/// It stands in for the absent `Error` body in protocol revisions that
/// carry no message.
pub struct Never {
    no_value: bool,
}

/// One 128-bit device identifier in canonical text form: 32 hexadecimal
/// digits in groups of 8-4-4-4-12, separated by hyphens.
#[derive(Debug, PartialEq, Eq)]
pub struct HLAPIDeviceHandle {
    pub text: Vec<u8>,
}

/// The canonical shape of a device handle's text.
pub open spec fn handle_wf(t: Seq<u8>) -> bool {
    &&& t.len() == 36
    &&& t[8] == 45 && t[13] == 45 && t[18] == 45 && t[23] == 45
    &&& forall|i: int|
        0 <= i < 36 && i != 8 && i != 13 && i != 18 && i != 23 ==> is_hex(#[trigger] t[i])
}

impl View for HLAPIDeviceHandle {
    type V = Seq<u8>;

    open spec fn view(&self) -> Seq<u8> {
        self.text@
    }
}

impl HLAPIDeviceHandle {
    pub open spec fn wf(self) -> bool {
        handle_wf(self@)
    }

    /// Accept exactly the canonical hyphenated text of a 128-bit identifier.
    pub fn parse(text: Vec<u8>) -> (r: Option<HLAPIDeviceHandle>)
        ensures
            match r {
                Some(h) => h@ == text@ && handle_wf(text@),
                None => !handle_wf(text@),
            },
    {
        if text.len() != 36 {
            return None;
        }
        let mut i: usize = 0;
        while i < 36
            invariant
                i <= 36,
                text@.len() == 36,
                forall|j: int|
                    0 <= j < i && j != 8 && j != 13 && j != 18 && j != 23 ==> is_hex(
                        #[trigger] text@[j],
                    ),
                forall|j: int| 0 <= j < i && (j == 8 || j == 13 || j == 18 || j == 23)
                    ==> text@[j] == 45,
            decreases 36 - i,
        {
            let b = text[i];
            if i == 8 || i == 13 || i == 18 || i == 23 {
                if b != 45 {
                    return None;
                }
            } else {
                if !(48 <= b && b <= 57 || 97 <= b && b <= 102 || 65 <= b && b <= 70) {
                    return None;
                }
            }
            i = i + 1;
        }
        Some(HLAPIDeviceHandle { text })
    }
}

/// One device on the bus: its handle and the non-empty ordered list of
/// component type names it exposes.
#[derive(Debug, PartialEq, Eq)]
pub struct HLAPIDeviceDescriptor {
    pub device_id: HLAPIDeviceHandle,
    pub components: Vec<Vec<u8>>,
}

/// Model of a descriptor: the handle text and the component names.
pub struct DescModel {
    pub device_id: Seq<u8>,
    pub components: Seq<Seq<u8>>,
}

/// Model of a sequence of byte vectors.
pub open spec fn bytes_model(s: Seq<Vec<u8>>) -> Seq<Seq<u8>> {
    Seq::new(s.len(), |i: int| if 0 <= i < s.len() { s[i]@ } else { Seq::empty() })
}

impl View for HLAPIDeviceDescriptor {
    type V = DescModel;

    open spec fn view(&self) -> DescModel {
        DescModel { device_id: self.device_id@, components: bytes_model(self.components@) }
    }
}

/// One parameter type record of a method descriptor.
#[derive(Debug, PartialEq, Eq)]
pub struct HLAPIType {
    data: Vec<u8>,
}

impl View for HLAPIType {
    type V = Seq<u8>;

    closed spec fn view(&self) -> Seq<u8> {
        self.data@
    }
}

impl HLAPIType {
    pub fn new(data: Vec<u8>) -> (r: HLAPIType)
        ensures
            r@ == data@,
    {
        HLAPIType { data }
    }

    pub fn data(&self) -> (r: &Vec<u8>)
        ensures
            r@ == self@,
    {
        &self.data
    }
}

/// Model of a sequence of parameter type records.
pub open spec fn types_model(s: Seq<HLAPIType>) -> Seq<Seq<u8>> {
    Seq::new(s.len(), |i: int| if 0 <= i < s.len() { s[i]@ } else { Seq::empty() })
}

/// One method a device exposes; parameter order is the positional argument
/// contract and is preserved exactly.
#[derive(Debug, PartialEq, Eq)]
pub struct HLAPIMethod {
    pub name: Vec<u8>,
    pub parameters: Vec<HLAPIType>,
    pub return_type: Vec<u8>,
    pub description: Option<Vec<u8>>,
    pub return_value_description: Option<Vec<u8>>,
}

/// Model of a method descriptor.
pub struct MethodModel {
    pub name: Seq<u8>,
    pub parameters: Seq<Seq<u8>>,
    pub return_type: Seq<u8>,
    pub description: Option<Seq<u8>>,
    pub return_value_description: Option<Seq<u8>>,
}

/// Model of an optional byte vector.
pub open spec fn opt_model(o: Option<Vec<u8>>) -> Option<Seq<u8>> {
    match o {
        Some(v) => Some(v@),
        None => None,
    }
}

impl View for HLAPIMethod {
    type V = MethodModel;

    open spec fn view(&self) -> MethodModel {
        MethodModel {
            name: self.name@,
            parameters: types_model(self.parameters@),
            return_type: self.return_type@,
            description: opt_model(self.description),
            return_value_description: opt_model(self.return_value_description),
        }
    }
}

/// One outbound request envelope.
pub enum HLAPISend {
    List,
    Methods(HLAPIDeviceHandle),
    Invoke { device_id: HLAPIDeviceHandle, method_name: Vec<u8>, parameters: Vec<JsonValue> },
}

/// Model of an outbound envelope.
pub enum SendModel {
    List,
    Methods(Seq<u8>),
    Invoke { device_id: Seq<u8>, method_name: Seq<u8>, parameters: Seq<JVal> },
}

impl View for HLAPISend {
    type V = SendModel;

    open spec fn view(&self) -> SendModel {
        match self {
            HLAPISend::List => SendModel::List,
            HLAPISend::Methods(h) => SendModel::Methods(h@),
            HLAPISend::Invoke { device_id, method_name, parameters } => SendModel::Invoke {
                device_id: device_id@,
                method_name: method_name@,
                parameters: jv_seq(parameters@),
            },
        }
    }
}

/// One inbound response envelope.
#[derive(Debug, PartialEq, Eq)]
pub enum HLAPIReceive {
    List(Vec<HLAPIDeviceDescriptor>),
    Methods(Vec<HLAPIMethod>),
    Error(Option<Vec<u8>>),
    Result(JsonValue),
}

/// Model of an inbound envelope.
pub enum RecvModel {
    List(Seq<DescModel>),
    Methods(Seq<MethodModel>),
    Error(Option<Seq<u8>>),
    Result(JVal),
}

/// Model of a sequence of descriptors.
pub open spec fn descs_model(s: Seq<HLAPIDeviceDescriptor>) -> Seq<DescModel> {
    Seq::new(
        s.len(),
        |i: int|
            if 0 <= i < s.len() {
                s[i]@
            } else {
                DescModel { device_id: Seq::empty(), components: Seq::empty() }
            },
    )
}

/// Model of a sequence of method descriptors.
pub open spec fn methods_model(s: Seq<HLAPIMethod>) -> Seq<MethodModel> {
    Seq::new(
        s.len(),
        |i: int|
            if 0 <= i < s.len() {
                s[i]@
            } else {
                MethodModel {
                    name: Seq::empty(),
                    parameters: Seq::empty(),
                    return_type: Seq::empty(),
                    description: None,
                    return_value_description: None,
                }
            },
    )
}

impl View for HLAPIReceive {
    type V = RecvModel;

    open spec fn view(&self) -> RecvModel {
        match self {
            HLAPIReceive::List(ds) => RecvModel::List(descs_model(ds@)),
            HLAPIReceive::Methods(ms) => RecvModel::Methods(methods_model(ms@)),
            HLAPIReceive::Error(msg) => RecvModel::Error(opt_model(*msg)),
            HLAPIReceive::Result(v) => RecvModel::Result(v.jv()),
        }
    }
}

impl HLAPIReceive {
    /// The payload of a `Result` envelope; any other variant yields nothing.
    pub fn expect_result(self) -> (r: Option<JsonValue>)
        ensures
            match r {
                Some(v) => self@ matches RecvModel::Result(m) && m == v.jv(),
                None => !(self@ is Result),
            },
    {
        if let HLAPIReceive::Result(v) = self {
            Some(v)
        } else {
            None
        }
    }
}

/// Byte-vector equality.
pub fn eq_bytes(a: &Vec<u8>, b: &Vec<u8>) -> (r: bool)
    ensures
        r == (a@ == b@),
{
    if a.len() != b.len() {
        assert(a@.len() != b@.len());
        return false;
    }
    let mut i: usize = 0;
    while i < a.len()
        invariant
            i <= a.len(),
            a@.len() == b@.len(),
            forall|j: int| 0 <= j < i ==> a@[j] == b@[j],
        decreases a.len() - i,
    {
        if a[i] != b[i] {
            return false;
        }
        i = i + 1;
    }
    proof {
        assert(a@ =~= b@);
    }
    true
}

/// The first descriptor whose component list contains `name`, scanning in
/// list order; the model of the tie-break rule.
pub open spec fn find_spec(ds: Seq<DescModel>, name: Seq<u8>) -> Option<Seq<u8>>
    decreases ds.len(),
{
    if ds.len() == 0 {
        None
    } else if ds[0].components.contains(name) {
        Some(ds[0].device_id)
    } else {
        find_spec(ds.drop_first(), name)
    }
}

/// Whether some entry of `v` holds exactly the bytes of `name`.
pub fn contains_bytes(v: &Vec<Vec<u8>>, name: &Vec<u8>) -> (r: bool)
    ensures
        r == bytes_model(v@).contains(name@),
{
    let mut j: usize = 0;
    while j < v.len()
        invariant
            j <= v.len(),
            forall|m: int| 0 <= m < j ==> bytes_model(v@)[m] != name@,
        decreases v.len() - j,
    {
        if eq_bytes(&v[j], name) {
            proof {
                assert(bytes_model(v@)[j as int] == name@);
            }
            return true;
        }
        j = j + 1;
    }
    proof {
        assert(!bytes_model(v@).contains(name@)) by {
            if bytes_model(v@).contains(name@) {
                let m = choose|m: int|
                    0 <= m < bytes_model(v@).len() && bytes_model(v@)[m] == name@;
                assert(bytes_model(v@)[m] != name@);
            }
        }
    }
    false
}

/// Scan descriptors for the first one exposing the component `name`; the
/// first match in list order wins.
pub fn find_device(ds: &Vec<HLAPIDeviceDescriptor>, name: &Vec<u8>) -> (r: Result<
    HLAPIDeviceHandle,
    HLAPIError,
>)
    ensures
        match r {
            Ok(h) => find_spec(descs_model(ds@), name@) == Some(h@),
            Err(e) => e == HLAPIError::NotFound && find_spec(descs_model(ds@), name@) is None,
        },
{
    let ghost dm = descs_model(ds@);
    proof {
        assert(dm.skip(0) =~= dm);
    }
    let mut i: usize = 0;
    while i < ds.len()
        invariant
            i <= ds.len(),
            dm == descs_model(ds@),
            find_spec(dm, name@) == find_spec(dm.skip(i as int), name@),
        decreases ds.len() - i,
    {
        let d = &ds[i];
        let found = contains_bytes(&d.components, name);
        proof {
            assert(dm.skip(i as int)[0] == dm[i as int]);
            assert(dm[i as int].components == bytes_model(d.components@));
            assert(dm.skip(i as int).drop_first() =~= dm.skip(i as int + 1));
        }
        if found {
            let h = HLAPIDeviceHandle { text: clone_bytes(&d.device_id.text) };
            return Ok(h);
        }
        i = i + 1;
    }
    proof {
        assert(dm.skip(ds@.len() as int) =~= Seq::<DescModel>::empty());
    }
    Err(HLAPIError::NotFound)
}

/// Copy a byte vector.
pub fn clone_bytes(a: &Vec<u8>) -> (r: Vec<u8>)
    ensures
        r@ == a@,
{
    let mut out: Vec<u8> = Vec::new();
    let mut i: usize = 0;
    while i < a.len()
        invariant
            i <= a.len(),
            out@ == a@.take(i as int),
        decreases a.len() - i,
    {
        out.push(a[i]);
        proof {
            assert(a@.take(i as int).push(a@[i as int]) =~= a@.take(i as int + 1));
        }
        i = i + 1;
    }
    proof {
        assert(a@.take(a@.len() as int) =~= a@);
    }
    out
}

} // verus!
