//! Names of git objects.

use vstd::prelude::*;

verus! {

/// The name of a git object: the twenty bytes of its hash.
#[derive(Clone, Copy, Debug)]
pub struct Oid {
    pub bytes: [u8; 20],
}

impl PartialEq for Oid {
    fn eq(&self, other: &Self) -> (r: bool) {
        let mut i: usize = 0;
        while i < 20
            invariant
                i <= 20,
                forall|j: int| 0 <= j < i ==> self.bytes[j] == other.bytes[j],
            decreases 20 - i,
        {
            if self.bytes[i] != other.bytes[i] {
                return false;
            }
            i = i + 1;
        }
        assert(self.bytes =~= other.bytes);
        true
    }
}

impl vstd::std_specs::cmp::PartialEqSpecImpl for Oid {
    open spec fn obeys_eq_spec() -> bool {
        true
    }

    open spec fn eq_spec(&self, other: &Self) -> bool {
        *self == *other
    }
}

impl Eq for Oid {

}

/// The lower-case hexadecimal digit that stands for a number below sixteen.
pub open spec fn hex_digit(n: int) -> char {
    seq![
        '0', '1', '2', '3', '4', '5', '6', '7', '8', '9', 'a', 'b', 'c', 'd', 'e', 'f',
    ][n]
}

/// Bytes in hexadecimal: two digits each, the high one first.
pub open spec fn hex(bytes: Seq<u8>) -> Seq<char> {
    Seq::new(
        2 * bytes.len(),
        |i: int|
            if i % 2 == 0 {
                hex_digit(bytes[i / 2] as int / 16)
            } else {
                hex_digit(bytes[i / 2] as int % 16)
            },
    )
}

/// Hexadecimal holds no slash.
pub proof fn lemma_hex_without_slash(bytes: Seq<u8>)
    ensures
        !hex(bytes).contains('/'),
{
    assert forall|i: int| 0 <= i < hex(bytes).len() implies #[trigger] hex(bytes)[i] != '/' by {
        let high = bytes[i / 2] as int / 16;
        let low = bytes[i / 2] as int % 16;
        assert(0 <= high < 16 && 0 <= low < 16);
        assert(forall|n: int| 0 <= n < 16 ==> #[trigger] hex_digit(n) != '/');
    }
}

impl Oid {
    /// The name as git writes it.
    ///
    /// `git2::Oid::from_bytes` takes any twenty bytes, and the `Display` of
    /// `git2::Oid` writes them in lower-case hexadecimal, two digits a byte.
    #[verifier::external_body]
    pub(crate) fn hex_text(&self) -> (r: String)
        ensures
            r@ == hex(self.bytes@),
    {
        git2::Oid::from_bytes(&self.bytes).unwrap().to_string()
    }
}

/// The value of a lower-case hexadecimal digit, if it is one.
pub open spec fn hex_value(digit: char) -> Option<int> {
    if '0' <= digit <= '9' {
        Some(digit as int - '0' as int)
    } else if 'a' <= digit <= 'f' {
        Some(digit as int - 'a' as int + 10)
    } else {
        None
    }
}

/// Bytes that were written in hexadecimal read as those bytes: two lower-case
/// digits for each, of which the first counts sixteen times as much as the second.
pub proof fn law_hex_reads_back(bytes: Seq<u8>)
    ensures
        hex(bytes).len() == 2 * bytes.len(),
        forall|i: int|
            0 <= i < bytes.len() ==> {
                &&& hex_value(hex(bytes)[2 * i]) matches Some(high)
                &&& hex_value(hex(bytes)[2 * i + 1]) matches Some(low)
                &&& #[trigger] bytes[i] as int == 16 * high + low
            },
{
    assert forall|i: int| 0 <= i < bytes.len() implies {
        &&& hex_value(hex(bytes)[2 * i]) matches Some(high)
        &&& hex_value(hex(bytes)[2 * i + 1]) matches Some(low)
        &&& #[trigger] bytes[i] as int == 16 * high + low
    } by {
        let high = bytes[i] as int / 16;
        let low = bytes[i] as int % 16;
        assert(0 <= high < 16 && 0 <= low < 16);
        assert(hex(bytes)[2 * i] == hex_digit(high));
        assert(hex(bytes)[2 * i + 1] == hex_digit(low));
        assert(forall|n: int| 0 <= n < 16 ==> hex_value(#[trigger] hex_digit(n)) == Some(n));
    }
}

} // verus!
