//! JSON documents: the instance side of a validation.

use vstd::arithmetic::div_mod::{lemma_mod_multiples_vanish, lemma_small_mod};
use vstd::arithmetic::power2::{
    lemma2_to64, lemma2_to64_rest, lemma_pow2_adds, lemma_pow2_pos, lemma_pow2_strictly_increases,
    pow2,
};
use vstd::bits::{lemma_u64_low_bits_mask_is_mod, lemma_u64_shl_is_mul, low_bits_mask};
use vstd::prelude::*;
use crate::names::{first_index, first_index_from, occurs};

verus! {

/// What the validator knows of a JSON number: whether its fractional part
/// is zero.
#[derive(Clone, Copy, Debug, PartialEq, Eq, Structural)]
pub struct JsonNumber {
    pub integral: bool,
}

/// The exponent field of the double with the bit pattern `bits`.
pub open spec fn double_exponent(bits: u64) -> int {
    ((bits >> 52) & 0x7ff) as int
}

/// The fraction field of the double with the bit pattern `bits`.
pub open spec fn double_fraction(bits: u64) -> int {
    (bits & 0xf_ffff_ffff_ffff) as int
}

/// Whether the double with the bit pattern `bits` is a whole number.
///
/// With exponent field `e` and fraction field `f`, a double is, but for its
/// sign, `f * 2^-1074` where `e` is zero, and `(2^52 + f) * 2^(e - 1075)`
/// where `e` is between 1 and 2046. With `e` at 2047 it is no number.
pub open spec fn double_is_whole(bits: u64) -> bool {
    let e = double_exponent(bits);
    let f = double_fraction(bits);
    if e == 2047 {
        false
    } else if e == 0 {
        f == 0
    } else {
        e >= 1075 || (pow2(52) + f) % (pow2((1075 - e) as nat) as int) == 0
    }
}

impl JsonNumber {
    /// What the validator knows of the double with the bit pattern `bits`.
    pub fn from_bits(bits: u64) -> (number: JsonNumber)
        ensures
            number.integral == double_is_whole(bits),
    {
        let e = (bits >> 52) & 0x7ff;
        let f = bits & 0xf_ffff_ffff_ffff;
        assert(e <= 2047 && f < 0x10_0000_0000_0000) by (bit_vector)
            requires
                e == (bits >> 52) & 0x7ff,
                f == bits & 0xf_ffff_ffff_ffff,
        ;
        proof {
            lemma2_to64();
            lemma2_to64_rest();
        }
        let integral = if e == 2047 {
            false
        } else if e == 0 {
            f == 0
        } else if e >= 1075 {
            true
        } else if e < 1023 {
            proof {
                let s = (1075 - e) as nat;
                if s > 53 {
                    lemma_pow2_strictly_increases(53, s);
                }
                lemma_small_mod((pow2(52) + f) as nat, pow2(s));
            }
            false
        } else {
            let s = 1075 - e;
            let modulus = 1u64 << s;
            proof {
                let low = s as nat;
                let high = (52 - s) as nat;
                lemma_u64_shl_is_mul(1, s);
                assert(modulus == pow2(low));
                assert(modulus - 1 == low_bits_mask(low));
                lemma_u64_low_bits_mask_is_mod(f, low);
                lemma_pow2_pos(low);
                lemma_pow2_adds(high, low);
                assert(pow2(52) == pow2(low) * pow2(high)) by (nonlinear_arith)
                    requires
                        pow2(52) == pow2(high) * pow2(low),
                ;
                lemma_mod_multiples_vanish(pow2(high) as int, f as int, pow2(low) as int);
            }
            f & (modulus - 1) == 0
        };
        JsonNumber { integral }
    }
}

/// A JSON document as a tree.
///
/// An object lists its members in iteration order.
#[derive(Debug, PartialEq, Eq)]
pub enum JsonValue {
    Null,
    Bool(bool),
    Number(JsonNumber),
    String(String),
    Array(Vec<JsonValue>),
    Object(Vec<(String, JsonValue)>),
}

/// The six kinds of JSON value.
#[derive(Clone, Copy, Debug, PartialEq, Eq, Structural)]
pub enum JsonKind {
    Null,
    Bool,
    Number,
    String,
    Array,
    Object,
}

/// The mathematical model of a [`JsonValue`].
pub enum Json {
    Null,
    Bool(bool),
    Number(JsonNumber),
    String(Seq<char>),
    Array(Seq<Json>),
    Object(Seq<(Seq<char>, Json)>),
}

impl Json {
    /// The kind of this value.
    pub open spec fn kind(self) -> JsonKind {
        match self {
            Json::Null => JsonKind::Null,
            Json::Bool(_) => JsonKind::Bool,
            Json::Number(_) => JsonKind::Number,
            Json::String(_) => JsonKind::String,
            Json::Array(_) => JsonKind::Array,
            Json::Object(_) => JsonKind::Object,
        }
    }

    /// Every object in this value, at any depth, has pairwise distinct keys.
    pub open spec fn unique_keys(self) -> bool
        decreases self,
    {
        match self {
            Json::Array(items) => forall|i: int|
                0 <= i < items.len() ==> (#[trigger] items[i]).unique_keys(),
            Json::Object(members) => {
                &&& member_keys(members).no_duplicates()
                &&& forall|i: int|
                    0 <= i < members.len() ==> (#[trigger] members[i]).1.unique_keys()
            },
            _ => true,
        }
    }
}

/// The keys of an object's members, in iteration order.
pub open spec fn member_keys(members: Seq<(Seq<char>, Json)>) -> Seq<Seq<char>> {
    Seq::new(members.len(), |i: int| members[i].0)
}

/// Whether the object has a member under `key`.
pub open spec fn has_member(members: Seq<(Seq<char>, Json)>, key: Seq<char>) -> bool {
    occurs(member_keys(members), key)
}

/// The position of the first member under `key`; the number of members
/// when there is none.
pub open spec fn member_position(members: Seq<(Seq<char>, Json)>, key: Seq<char>) -> int {
    first_index(member_keys(members), key)
}

/// The models of the items of an array.
pub open spec fn items_view(items: Seq<JsonValue>) -> Seq<Json>
    decreases items,
{
    Seq::new(
        items.len(),
        |i: int|
            if 0 <= i < items.len() {
                items[i].view()
            } else {
                Json::Null
            },
    )
}

/// The models of an object's members.
pub open spec fn members_view(members: Seq<(String, JsonValue)>) -> Seq<(Seq<char>, Json)>
    decreases members,
{
    Seq::new(
        members.len(),
        |i: int|
            if 0 <= i < members.len() {
                (members[i].0@, members[i].1.view())
            } else {
                (Seq::empty(), Json::Null)
            },
    )
}

impl View for JsonValue {
    type V = Json;

    open spec fn view(&self) -> Json
        decreases self,
    {
        match self {
            JsonValue::Null => Json::Null,
            JsonValue::Bool(b) => Json::Bool(*b),
            JsonValue::Number(n) => Json::Number(*n),
            JsonValue::String(s) => Json::String(s@),
            JsonValue::Array(items) => Json::Array(items_view(items@)),
            JsonValue::Object(members) => Json::Object(members_view(members@)),
        }
    }
}

/// The position of the first member under `key`, if there is one.
pub fn find_member(members: &Vec<(String, JsonValue)>, key: &String) -> (found: Option<usize>)
    ensures
        match found {
            Some(at) => at < members.len() && at == member_position(members_view(members@), key@),
            None => !has_member(members_view(members@), key@),
        },
{
    let ghost keys = member_keys(members_view(members@));
    let mut i: usize = 0;
    while i < members.len()
        invariant
            i <= members.len(),
            keys == member_keys(members_view(members@)),
            first_index(keys, key@) == first_index_from(keys, key@, i as int),
        decreases members.len() - i,
    {
        assert(keys[i as int] == members[i as int].0@);
        if members[i].0 == *key {
            return Some(i);
        }
        i += 1;
    }
    None
}

/// Whether no two members share a key.
pub fn has_distinct_keys(members: &Vec<(String, JsonValue)>) -> (distinct: bool)
    ensures
        distinct == member_keys(members_view(members@)).no_duplicates(),
{
    let ghost keys = member_keys(members_view(members@));
    let mut j: usize = 0;
    while j < members.len()
        invariant
            j <= members.len(),
            keys == member_keys(members_view(members@)),
            forall|a: int, b: int| 0 <= a < b < j ==> keys[a] != keys[b],
        decreases members.len() - j,
    {
        let mut i: usize = 0;
        while i < j
            invariant
                i <= j < members.len(),
                keys == member_keys(members_view(members@)),
                forall|a: int| 0 <= a < i ==> keys[a] != keys[j as int],
            decreases j - i,
        {
            assert(keys[i as int] == members[i as int].0@);
            assert(keys[j as int] == members[j as int].0@);
            if members[i].0 == members[j].0 {
                return false;
            }
            i += 1;
        }
        j += 1;
    }
    assert forall|a: int, b: int|
        0 <= a < keys.len() && 0 <= b < keys.len() && a != b implies keys[a] != keys[b] by {
        if a < b {
        } else {
            assert(keys[b] != keys[a]);
        }
    }
    true
}

impl JsonValue {
    /// Whether every object in this value, at any depth, has pairwise
    /// distinct keys.
    pub fn has_unique_keys(&self) -> (unique: bool)
        ensures
            unique == self@.unique_keys(),
        decreases self@,
    {
        match self {
            JsonValue::Array(items) => {
                let mut i: usize = 0;
                while i < items.len()
                    invariant
                        i <= items.len(),
                        self@ == Json::Array(items_view(items@)),
                        forall|k: int| 0 <= k < i ==> (#[trigger] items_view(items@)[k]).unique_keys(),
                    decreases items.len() - i,
                {
                    proof {
                        let models = items_view(items@);
                        assert(models[i as int] == items[i as int]@);
                        assert(decreases_to!(self@ => self@->Array_0));
                        assert(decreases_to!(models => models[i as int]));
                    }
                    if !items[i].has_unique_keys() {
                        assert(!items_view(items@)[i as int].unique_keys());
                        return false;
                    }
                    i += 1;
                }
                true
            },
            JsonValue::Object(members) => {
                if !has_distinct_keys(members) {
                    return false;
                }
                let mut i: usize = 0;
                while i < members.len()
                    invariant
                        i <= members.len(),
                        self@ == Json::Object(members_view(members@)),
                        member_keys(members_view(members@)).no_duplicates(),
                        forall|k: int|
                            0 <= k < i ==> (#[trigger] members_view(members@)[k]).1.unique_keys(),
                    decreases members.len() - i,
                {
                    proof {
                        let models = members_view(members@);
                        assert(models[i as int].1 == members[i as int].1@);
                        assert(decreases_to!(self@ => self@->Object_0));
                        assert(decreases_to!(models => models[i as int]));
                        assert(decreases_to!(models[i as int] => models[i as int].1));
                    }
                    if !members[i].1.has_unique_keys() {
                        assert(!members_view(members@)[i as int].1.unique_keys());
                        return false;
                    }
                    i += 1;
                }
                true
            },
            _ => true,
        }
    }

    /// The kind of this value.
    pub fn kind(&self) -> (k: JsonKind)
        ensures
            k == self@.kind(),
    {
        match self {
            JsonValue::Null => JsonKind::Null,
            JsonValue::Bool(_) => JsonKind::Bool,
            JsonValue::Number(_) => JsonKind::Number,
            JsonValue::String(_) => JsonKind::String,
            JsonValue::Array(_) => JsonKind::Array,
            JsonValue::Object(_) => JsonKind::Object,
        }
    }
}

} // verus!
