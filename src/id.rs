use crate::text::{
    all_digits, digits_value, hex_text, lemma_hex_text, parse_hex, power, push_char, push_hex,
};
use vstd::prelude::*;

verus! {

/// A task's unique identifier: a 128-bit UUID held as its high and low halves.
#[derive(Clone, Copy, Debug, PartialEq, Eq, Structural)]
pub struct TaskId {
    pub hi: u64,
    pub lo: u64,
}

/// The canonical text of an identifier: 32 lowercase hex digits, high half first,
/// grouped 8-4-4-4-12 by hyphens.
pub open spec fn uuid_text(id: TaskId) -> Seq<char> {
    let h = hex_text(id.hi as nat, 16) + hex_text(id.lo as nat, 16);
    h.subrange(0, 8) + seq!['-'] + h.subrange(8, 12) + seq!['-'] + h.subrange(12, 16) + seq!['-']
        + h.subrange(16, 20) + seq!['-'] + h.subrange(20, 32)
}

/// The 32 digit positions of a hyphenated identifier text of 36 characters.
pub open spec fn uuid_digits(s: Seq<char>) -> Seq<char> {
    s.subrange(0, 8) + s.subrange(9, 13) + s.subrange(14, 18) + s.subrange(19, 23) + s.subrange(
        24,
        36,
    )
}

/// The identifier a text spells: 36 characters, hyphens at positions 8, 13, 18 and 23,
/// hex digits (in either case) everywhere else.
pub open spec fn parse_uuid(s: Seq<char>) -> Option<TaskId> {
    if s.len() == 36 && s[8] == '-' && s[13] == '-' && s[18] == '-' && s[23] == '-' && all_digits(
        uuid_digits(s),
        16,
    ) {
        let d = uuid_digits(s);
        Some(
            TaskId {
                hi: digits_value(d.subrange(0, 16), 16) as u64,
                lo: digits_value(d.subrange(16, 32), 16) as u64,
            },
        )
    } else {
        None
    }
}

/// `16^16` is `2^64`.
proof fn lemma_power_16_16()
    ensures
        power(16, 16) == 0x1_0000_0000_0000_0000,
{
    reveal_with_fuel(power, 17);
}

/// Reading an identifier's text gives the identifier back.
pub proof fn law_uuid_text_roundtrip(id: TaskId)
    ensures
        parse_uuid(uuid_text(id)) == Some(id),
{
    lemma_power_16_16();
    lemma_hex_text(id.hi as nat, 16);
    lemma_hex_text(id.lo as nat, 16);
    let a = hex_text(id.hi as nat, 16);
    let b = hex_text(id.lo as nat, 16);
    let h = a + b;
    let t = uuid_text(id);
    assert(uuid_digits(t) == h);
    assert(h.subrange(0, 16) == a);
    assert(h.subrange(16, 32) == b);
    assert(all_digits(h, 16)) by {
        assert forall|i: int| 0 <= i < h.len() implies #[trigger] crate::text::digit_value(h[i]) < 16 by {
            if i < 16 {
                assert(h[i] == a[i]);
            } else {
                assert(h[i] == b[i - 16]);
            }
        }
    }
}

impl TaskId {
    /// The canonical text of this identifier, such as
    /// `67e55044-10b1-426f-9247-bb680e5fe0c8`.
    pub fn to_text(&self) -> (r: String)
        ensures
            r@ == uuid_text(*self),
    {
        proof {
            lemma_power_16_16();
            lemma_hex_text(self.hi as nat, 16);
            lemma_hex_text(self.lo as nat, 16);
        }
        let mut h = String::new();
        push_hex(&mut h, self.hi, 16);
        push_hex(&mut h, self.lo, 16);
        let hs = h.as_str();
        let mut r = String::new();
        r.append(hs.substring_char(0, 8));
        push_char(&mut r, '-');
        r.append(hs.substring_char(8, 12));
        push_char(&mut r, '-');
        r.append(hs.substring_char(12, 16));
        push_char(&mut r, '-');
        r.append(hs.substring_char(16, 20));
        push_char(&mut r, '-');
        r.append(hs.substring_char(20, 32));
        proof {
            assert(r@ == uuid_text(*self));
        }
        r
    }

    /// Reads an identifier from its hyphenated text; `None` if the text is not one.
    pub fn parse(s: &str) -> (r: Option<TaskId>)
        ensures
            r == parse_uuid(s@),
    {
        let n = s.unicode_len();
        if n != 36 {
            return None;
        }
        if s.get_char(8) != '-' || s.get_char(13) != '-' || s.get_char(18) != '-' || s.get_char(23)
            != '-' {
            return None;
        }
        let mut d = String::new();
        d.append(s.substring_char(0, 8));
        d.append(s.substring_char(9, 13));
        d.append(s.substring_char(14, 18));
        d.append(s.substring_char(19, 23));
        d.append(s.substring_char(24, 36));
        proof {
            assert(d@ == uuid_digits(s@));
        }
        let ds = d.as_str();
        let hi = parse_hex(ds.substring_char(0, 16));
        let lo = parse_hex(ds.substring_char(16, 32));
        proof {
            let x = d@.subrange(0, 16);
            let y = d@.subrange(16, 32);
            if all_digits(x, 16) && all_digits(y, 16) {
                assert forall|i: int| 0 <= i < d@.len() implies #[trigger] crate::text::digit_value(
                    d@[i],
                ) < 16 by {
                    if i < 16 {
                        assert(d@[i] == x[i]);
                    } else {
                        assert(d@[i] == y[i - 16]);
                    }
                }
            }
            if all_digits(d@, 16) {
                assert forall|i: int| 0 <= i < x.len() implies #[trigger] crate::text::digit_value(
                    x[i],
                ) < 16 by {
                    assert(x[i] == d@[i]);
                }
                assert forall|i: int| 0 <= i < y.len() implies #[trigger] crate::text::digit_value(
                    y[i],
                ) < 16 by {
                    assert(y[i] == d@[i + 16]);
                }
            }
        }
        match (hi, lo) {
            (Some(hi), Some(lo)) => Some(TaskId { hi, lo }),
            _ => None,
        }
    }

    /// Whether the identifier carries the marks of a random (version 4) UUID: version
    /// nibble 4 and the RFC 4122 variant bits `10`.
    pub open spec fn is_v4(&self) -> bool {
        &&& self.hi & 0xF000 == 0x4000
        &&& self.lo & 0xC000_0000_0000_0000 == 0x8000_0000_0000_0000
    }

    /// A fresh random (version 4) identifier.
    pub fn new_random() -> (r: TaskId)
        ensures
            r.is_v4(),
    {
        let (hi, lo) = random_uuid_halves();
        TaskId { hi, lo }
    }
}

/// Relies on uuid's `Uuid::new_v4` and `Uuid::as_u64_pair`: a random identifier,
/// split into its high and low 64 bits. `new_v4` sets the version nibble to 4 and the
/// variant bits to `10`; the other bits are random.
#[verifier::external_body]
fn random_uuid_halves() -> (r: (u64, u64))
    ensures
        r.0 & 0xF000 == 0x4000,
        r.1 & 0xC000_0000_0000_0000 == 0x8000_0000_0000_0000,
{
    uuid::Uuid::new_v4().as_u64_pair()
}

} // verus!
