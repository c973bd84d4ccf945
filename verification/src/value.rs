use crate::byte_order::be_value;
use crate::encoding_type::EncodingType;
use crate::error::KbinError;
use crate::lanes::{
    lane_at, lane_fits, lane_int, lane_value, lemma_lane_bounds, lemma_lane_fits,
    lemma_whole_lanes,
};
use crate::node_types::{LaneKind, StandardType};
use crate::reader::{NodeDefinition, Record};
use vstd::prelude::*;

verus! {

/// One lane of a value. Floating-point numbers are held as their bits.
#[derive(Clone, Copy, Debug, PartialEq, Eq)]
pub enum Lane {
    /// A signed number.
    Signed(i64),
    /// An unsigned number.
    Unsigned(u64),
    /// The bits of a single-precision number.
    Float(u32),
    /// The bits of a double-precision number.
    Double(u64),
    /// A boolean.
    Boolean(bool),
    /// The four bytes of an address.
    Ip4(u8, u8, u8, u8),
}

/// The value of a node as a mathematical value: what a `Value` holds.
pub enum ValueView {
    /// A blob of bytes.
    Binary(Seq<u8>),
    /// The text of a string node.
    String(Seq<char>),
    /// The text of an attribute.
    Attribute(Seq<char>),
    /// A single value of a type with lanes: its lanes in order.
    Single(StandardType, Seq<Lane>),
    /// An array of values of a type with lanes: the lanes of all values in order.
    Array(StandardType, Seq<Lane>),
}

/// The value of a node.
#[derive(Clone, Debug, PartialEq, Eq)]
pub enum Value {
    /// A blob of bytes.
    Binary(Vec<u8>),
    /// The text of a string node.
    String(String),
    /// The text of an attribute.
    Attribute(String),
    /// A single value of a type with lanes: its lanes in order.
    Single(StandardType, Vec<Lane>),
    /// An array of values of a type with lanes: the lanes of all values in order.
    Array(StandardType, Vec<Lane>),
}

impl View for Value {
    type V = ValueView;

    open spec fn view(&self) -> ValueView {
        match self {
            Value::Binary(bytes) => ValueView::Binary(bytes@),
            Value::String(text) => ValueView::String(text@),
            Value::Attribute(text) => ValueView::Attribute(text@),
            Value::Single(ty, lanes) => ValueView::Single(*ty, lanes@),
            Value::Array(ty, lanes) => ValueView::Array(*ty, lanes@),
        }
    }
}

/// What the bytes of one lane hold.
///
/// Numbers are read most significant byte first, signed numbers in two's
/// complement. A boolean lane that holds anything but 0 or 1 is an error.
pub open spec fn lane_of(kind: LaneKind, lane: Seq<u8>) -> Result<Lane, KbinError> {
    match kind {
        LaneKind::Signed => Ok(Lane::Signed(lane_int(lane) as i64)),
        LaneKind::Unsigned => Ok(Lane::Unsigned(be_value(lane) as u64)),
        LaneKind::Float => if lane.len() == 4 {
            Ok(Lane::Float(be_value(lane) as u32))
        } else {
            Ok(Lane::Double(be_value(lane) as u64))
        },
        LaneKind::Bool => if lane[0] <= 1 {
            Ok(Lane::Boolean(lane[0] == 1))
        } else {
            Err(KbinError::InvalidBooleanInput { input: lane[0] })
        },
        _ => Ok(Lane::Ip4(lane[0], lane[1], lane[2], lane[3])),
    }
}

/// What the first `n` lanes of `input` hold, or the error of the first lane that has one.
pub open spec fn lanes_of(kind: LaneKind, size: nat, input: Seq<u8>, n: nat) -> Result<
    Seq<Lane>,
    KbinError,
>
    decreases n,
{
    if n == 0 {
        Ok(Seq::empty())
    } else {
        match lanes_of(kind, size, input, (n - 1) as nat) {
            Err(e) => Err(e),
            Ok(head) => match lane_of(kind, lane_at(input, size, (n - 1) as nat)) {
                Err(e) => Err(e),
                Ok(lane) => Ok(head.push(lane)),
            },
        }
    }
}

/// The value of a node, if it has one.
///
/// An element without a value and the end markers have none. The text of an
/// attribute or of a string is its bytes decoded, without the zero bytes at
/// their end. The bytes of any other type must be those of whole values.
pub open spec fn value_of(record: Record, encoding: EncodingType) -> Result<
    Option<ValueView>,
    KbinError,
> {
    let ty = record.node_type;
    match ty.spec_kind() {
        LaneKind::Marker => if ty == StandardType::Attribute {
            match encoding.spec_decode_bytes(record.payload) {
                Ok(text) => Ok(Some(ValueView::Attribute(text))),
                Err(e) => Err(e),
            }
        } else {
            Ok(None)
        },
        LaneKind::Text => match encoding.spec_decode_bytes(record.payload) {
            Ok(text) => Ok(Some(ValueView::String(text))),
            Err(e) => Err(e),
        },
        LaneKind::Binary => Ok(Some(ValueView::Binary(record.payload))),
        _ => match ty.parse_refusal(record.payload) {
            Some(e) => Err(e),
            None => match lanes_of(
                ty.spec_kind(),
                ty.spec_size() as nat,
                record.payload,
                record.payload.len() / (ty.spec_size() as nat),
            ) {
                Err(e) => Err(e),
                Ok(lanes) => if record.is_array {
                    Ok(Some(ValueView::Array(ty, lanes)))
                } else {
                    Ok(Some(ValueView::Single(ty, lanes)))
                },
            },
        },
    }
}

/// An error among the first lanes is the error of all the lanes.
pub proof fn lemma_lanes_of_error(kind: LaneKind, size: nat, input: Seq<u8>, i: nat, n: nat)
    requires
        i < n,
        lanes_of(kind, size, input, i) is Ok,
        lane_of(kind, lane_at(input, size, i)) is Err,
    ensures
        lanes_of(kind, size, input, n) == Err::<Seq<Lane>, KbinError>(
            lane_of(kind, lane_at(input, size, i))->Err_0,
        ),
    decreases n - i,
{
    if n > i + 1 {
        lemma_lanes_of_error(kind, size, input, i, (n - 1) as nat);
    }
}

/// Reads what the lane of `size` bytes at `at` holds.
pub fn read_lane(kind: LaneKind, input: &[u8], at: usize, size: usize) -> (r: Result<
    Lane,
    KbinError,
>)
    requires
        lane_fits(kind, size as nat),
        at + size <= input.len(),
    ensures
        r == lane_of(kind, input@.subrange(at as int, at + size)),
{
    proof {
        crate::byte_order::lemma_pow256_values();
        crate::byte_order::lemma_be_value_bound(input@.subrange(at as int, at + size));
    }
    match kind {
        LaneKind::Signed => {
            let u = lane_value(input, at, size);
            let half: u64 = if size == 1 {
                0x80
            } else if size == 2 {
                0x8000
            } else if size == 4 {
                0x8000_0000
            } else {
                0x8000_0000_0000_0000
            };
            let v: i128 = if u >= half {
                u as i128 - 2 * (half as i128)
            } else {
                u as i128
            };
            Ok(Lane::Signed(v as i64))
        },
        LaneKind::Unsigned => Ok(Lane::Unsigned(lane_value(input, at, size))),
        LaneKind::Float => {
            let u = lane_value(input, at, size);
            if size == 4 {
                Ok(Lane::Float(u as u32))
            } else {
                Ok(Lane::Double(u))
            }
        },
        LaneKind::Bool => {
            let b = input[at];
            if b > 1 {
                Err(KbinError::InvalidBooleanInput { input: b })
            } else {
                Ok(Lane::Boolean(b == 1))
            }
        },
        _ => Ok(Lane::Ip4(input[at], input[at + 1], input[at + 2], input[at + 3])),
    }
}

/// Reads what the lanes of `input` hold.
#[verifier::loop_isolation(false)]
pub fn read_lanes(ty: StandardType, input: &[u8]) -> (r: Result<Vec<Lane>, KbinError>)
    requires
        ty.whole_values(input@),
    ensures
        match lanes_of(
            ty.spec_kind(),
            ty.spec_size() as nat,
            input@,
            input@.len() / (ty.spec_size() as nat),
        ) {
            Ok(lanes) => r matches Ok(found) && found@ == lanes,
            Err(e) => r matches Err(err) && err == e,
        },
{
    let kind = ty.kind();
    let size = ty.size() as usize;
    proof {
        lemma_lane_fits(ty);
        lemma_whole_lanes(ty, input@.len());
    }
    let n = input.len() / size;
    let mut lanes: Vec<Lane> = Vec::new();
    let mut i: usize = 0;
    while i < n
        invariant
            i <= n,
            lanes_of(kind, size as nat, input@, i as nat) == Ok::<Seq<Lane>, KbinError>(lanes@),
        decreases n - i,
    {
        proof {
            lemma_lane_bounds(i as nat, n as nat, size as nat);
        }
        let at = i * size;
        proof {
            assert(lane_at(input@, size as nat, i as nat) == input@.subrange(at as int, at + size));
        }
        match read_lane(kind, input, at, size) {
            Ok(lane) => {
                lanes.push(lane);
            },
            Err(e) => {
                proof {
                    lemma_lanes_of_error(kind, size as nat, input@, i as nat, n as nat);
                }
                return Err(e);
            },
        }
        i += 1;
    }
    Ok(lanes)
}

impl NodeDefinition {
    /// The value of the node, if it has one.
    pub fn value(&self, encoding: EncodingType) -> (r: Result<Option<Value>, KbinError>)
        ensures
            match value_of(self@, encoding) {
                Ok(Some(value)) => r matches Ok(Some(found)) && found@ == value,
                Ok(None) => r matches Ok(None),
                Err(e) => r matches Err(err) && err == e,
            },
    {
        let ty = self.node_type;
        match ty.kind() {
            LaneKind::Marker => match ty {
                StandardType::Attribute => match encoding.decode_bytes(self.value.as_slice()) {
                    Ok(text) => Ok(Some(Value::Attribute(text))),
                    Err(e) => Err(e),
                },
                _ => Ok(None),
            },
            LaneKind::Text => match encoding.decode_bytes(self.value.as_slice()) {
                Ok(text) => Ok(Some(Value::String(text))),
                Err(e) => Err(e),
            },
            LaneKind::Binary => Ok(Some(Value::Binary(self.value.clone()))),
            _ => {
                proof {
                    lemma_lane_fits(ty);
                    let z = ty.spec_size() as int;
                    let c = ty.spec_count() as int;
                    assert(0 < z * c <= 128) by (nonlinear_arith)
                        requires
                            1 <= z <= 8,
                            1 <= c <= 16,
                    ;
                }
                let footprint: usize = (ty.size() as usize) * (ty.count() as usize);
                if self.value.len() % footprint != 0 {
                    return Err(
                        KbinError::SizeMismatch {
                            node_type: ty.name(),
                            expected: footprint,
                            actual: self.value.len(),
                        },
                    );
                }
                match read_lanes(ty, self.value.as_slice()) {
                    Ok(lanes) => if self.is_array {
                        Ok(Some(Value::Array(ty, lanes)))
                    } else {
                        Ok(Some(Value::Single(ty, lanes)))
                    },
                    Err(e) => Err(e),
                }
            },
        }
    }
}

} // verus!
