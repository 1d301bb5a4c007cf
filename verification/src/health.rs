//! Reading health probe answers.
//!
//! A probe asks a backend for its head block with `eth_blockNumber`; the
//! answer's `result` field holds the head as hexadecimal text tagged "0x".
//! The probe's HTTP call happens outside the library; this module reads the
//! body it brought back.

use vstd::prelude::*;
use crate::json::JsonValue;
use crate::json::JsonView;
use crate::json::lookup;
use crate::json::lookup_member;
use crate::num::all_hex_digits;
use crate::num::hex_value;
use crate::num::parse_u64_hex;

verus! {

/// The probe's hex text with every leading "0x" removed.
pub open spec fn spec_trim_hex_tag(s: Seq<char>) -> Seq<char>
    decreases s.len(),
{
    if s.len() >= 2 && s[0] == '0' && s[1] == 'x' {
        spec_trim_hex_tag(s.skip(2))
    } else {
        s
    }
}

/// The head block a probe answer reports: its "result" string, less the "0x"
/// tag, read as a hexadecimal number that fits sixty-four bits.
pub open spec fn spec_probe_block(v: JsonView) -> Option<u64> {
    match v {
        JsonView::Object(members) => match lookup(members, "result"@) {
            Some(JsonView::Text(s)) => {
                let t = spec_trim_hex_tag(s);
                if t.len() > 0 && all_hex_digits(t) && hex_value(t) <= u64::MAX {
                    Some(hex_value(t) as u64)
                } else {
                    None
                }
            },
            _ => None,
        },
        _ => None,
    }
}

/// Reads the head block out of a probe answer.
#[verifier::loop_isolation(false)]
pub fn parse_probe_result(v: &JsonValue) -> (r: Option<u64>)
    ensures
        r == spec_probe_block(v@),
{
    match v {
        JsonValue::Object(members) => {
            match lookup_member(members, "result") {
                Some(JsonValue::Text(text)) => {
                    let s = text.as_str();
                    let n = s.unicode_len();
                    let mut start: usize = 0;
                    proof {
                        assert(s@.skip(0) =~= s@);
                    }
                    while n - start >= 2 && s.get_char(start) == '0' && s.get_char(start + 1)
                        == 'x'
                        invariant
                            start <= n,
                            n == s@.len(),
                            spec_trim_hex_tag(s@) == spec_trim_hex_tag(s@.skip(start as int)),
                        decreases n - start,
                    {
                        proof {
                            assert(s@.skip(start as int).skip(2) =~= s@.skip(start as int + 2));
                        }
                        start += 2;
                    }
                    proof {
                        assert(spec_trim_hex_tag(s@.skip(start as int)) == s@.skip(start as int));
                    }
                    let digits = s.substring_char(start, n);
                    proof {
                        assert(digits@ =~= s@.skip(start as int));
                    }
                    parse_u64_hex(digits)
                },
                _ => None,
            }
        },
        _ => None,
    }
}

} // verus!
