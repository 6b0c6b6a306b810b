//! Identifiers: 32-byte content hashes, their order and their hexadecimal form.

use vstd::prelude::*;
use vstd::string::StringExecFns;

verus! {

/// A 32-byte content hash. Two ids are equal when their bytes are.
#[derive(Clone, Copy, Debug, Hash)]
pub struct Id {
    pub bytes: [u8; 32],
}

impl View for Id {
    type V = Seq<u8>;

    open spec fn view(&self) -> Seq<u8> {
        self.bytes@
    }
}

/// `a` comes before `b` in the lexicographic order of byte strings.
pub open spec fn bytes_precede(a: Seq<u8>, b: Seq<u8>) -> bool
    decreases a.len(),
{
    if b.len() == 0 {
        false
    } else if a.len() == 0 {
        true
    } else if a[0] != b[0] {
        a[0] < b[0]
    } else {
        bytes_precede(a.skip(1), b.skip(1))
    }
}

/// No byte string comes before itself.
pub proof fn lemma_precede_irreflexive(a: Seq<u8>)
    ensures
        !bytes_precede(a, a),
    decreases a.len(),
{
    if a.len() > 0 {
        lemma_precede_irreflexive(a.skip(1));
    }
}

/// What comes before a byte string comes before all that the string comes before.
pub proof fn lemma_precede_transitive(a: Seq<u8>, b: Seq<u8>, c: Seq<u8>)
    requires
        bytes_precede(a, b),
        bytes_precede(b, c),
    ensures
        bytes_precede(a, c),
    decreases a.len(),
{
    if a.len() > 0 && a[0] == b[0] && b[0] == c[0] {
        lemma_precede_transitive(a.skip(1), b.skip(1), c.skip(1));
    }
}

/// Of two byte strings of one length that differ, one comes before the other.
pub proof fn lemma_precede_total(a: Seq<u8>, b: Seq<u8>)
    requires
        a.len() == b.len(),
        a != b,
    ensures
        bytes_precede(a, b) || bytes_precede(b, a),
    decreases a.len(),
{
    if a.len() == 0 {
        assert(a =~= b);
    } else if a[0] == b[0] {
        if a.skip(1) == b.skip(1) {
            assert(a =~= seq![a[0]] + a.skip(1));
            assert(b =~= seq![b[0]] + b.skip(1));
        }
        lemma_precede_total(a.skip(1), b.skip(1));
    }
}

impl Id {
    /// The id with the given bytes.
    pub fn new(bytes: [u8; 32]) -> (id: Id)
        ensures
            id@ == bytes@,
            id.bytes == bytes,
    {
        Id { bytes }
    }

    /// The id made of the 32 bytes of `bytes`, or `None` where `bytes` has another length.
    pub fn from_slice(bytes: &[u8]) -> (r: Option<Id>)
        ensures
            bytes@.len() == 32 ==> r is Some && r->0@ == bytes@,
            bytes@.len() != 32 ==> r is None,
    {
        if bytes.len() != 32 {
            return None;
        }
        let mut out = [0u8; 32];
        let mut i: usize = 0;
        while i < 32
            invariant
                i <= 32,
                bytes@.len() == 32,
                forall|j: int| 0 <= j < i ==> out@[j] == bytes@[j],
            decreases 32 - i,
        {
            out[i] = bytes[i];
            i += 1;
        }
        assert(out@ =~= bytes@);
        Some(Id { bytes: out })
    }

    /// The bytes of the id.
    pub fn to_vec(&self) -> (v: Vec<u8>)
        ensures
            v@ == self@,
    {
        let mut v: Vec<u8> = Vec::new();
        let mut i: usize = 0;
        while i < 32
            invariant
                i <= 32,
                v@.len() == i,
                forall|j: int| 0 <= j < i ==> v@[j] == self.bytes@[j],
            decreases 32 - i,
        {
            v.push(self.bytes[i]);
            i += 1;
        }
        assert(v@ =~= self@);
        v
    }

    /// Byte equality.
    pub fn equals(&self, other: &Id) -> (r: bool)
        ensures
            r == (self@ == other@),
            r == (*self == *other),
    {
        let mut i: usize = 0;
        while i < 32
            invariant
                i <= 32,
                forall|j: int| 0 <= j < i ==> self.bytes@[j] == other.bytes@[j],
            decreases 32 - i,
        {
            if self.bytes[i] != other.bytes[i] {
                return false;
            }
            i += 1;
        }
        assert(self.bytes@ =~= other.bytes@);
        assert(self.bytes =~= other.bytes);
        true
    }

    /// Whether `self` comes before `other` in ascending order of ids, which is
    /// the lexicographic order of their bytes.
    pub fn precedes(&self, other: &Id) -> (r: bool)
        ensures
            r == bytes_precede(self@, other@),
    {
        let mut i: usize = 0;
        assert(self@.skip(0) =~= self@ && other@.skip(0) =~= other@);
        while i < 32
            invariant
                i <= 32,
                bytes_precede(self@, other@) == bytes_precede(
                    self@.skip(i as int),
                    other@.skip(i as int),
                ),
            decreases 32 - i,
        {
            let a = self.bytes[i];
            let b = other.bytes[i];
            proof {
                let sa = self@.skip(i as int);
                let sb = other@.skip(i as int);
                assert(sa[0] == a && sb[0] == b);
                assert(sa.skip(1) =~= self@.skip(i + 1));
                assert(sb.skip(1) =~= other@.skip(i + 1));
            }
            if a != b {
                return a < b;
            }
            i += 1;
        }
        assert(other@.skip(32).len() == 0);
        false
    }
}

impl PartialEq for Id {
    fn eq(&self, other: &Id) -> (r: bool) {
        self.equals(other)
    }
}

impl Eq for Id {

}

impl vstd::std_specs::cmp::PartialEqSpecImpl for Id {
    open spec fn obeys_eq_spec() -> bool {
        true
    }

    open spec fn eq_spec(&self, other: &Id) -> bool {
        *self == *other
    }
}

/// The lowercase hexadecimal digit of a number below 16.
pub open spec fn hex_char(n: u8) -> char {
    if n == 0 {
        '0'
    } else if n == 1 {
        '1'
    } else if n == 2 {
        '2'
    } else if n == 3 {
        '3'
    } else if n == 4 {
        '4'
    } else if n == 5 {
        '5'
    } else if n == 6 {
        '6'
    } else if n == 7 {
        '7'
    } else if n == 8 {
        '8'
    } else if n == 9 {
        '9'
    } else if n == 10 {
        'a'
    } else if n == 11 {
        'b'
    } else if n == 12 {
        'c'
    } else if n == 13 {
        'd'
    } else if n == 14 {
        'e'
    } else {
        'f'
    }
}

/// The bytes in lowercase hexadecimal: two digits for each byte, the high one first.
pub open spec fn hex_chars(bytes: Seq<u8>) -> Seq<char> {
    Seq::new(
        2 * bytes.len(),
        |i: int|
            if i % 2 == 0 {
                hex_char(bytes[i / 2] / 16)
            } else {
                hex_char(bytes[i / 2] % 16)
            },
    )
}

/// The text of one hexadecimal digit.
fn hex_digit(n: u8) -> (digit: &'static str)
    requires
        n < 16,
    ensures
        digit@ == seq![hex_char(n)],
{
    proof {
        reveal_strlit("0");
        reveal_strlit("1");
        reveal_strlit("2");
        reveal_strlit("3");
        reveal_strlit("4");
        reveal_strlit("5");
        reveal_strlit("6");
        reveal_strlit("7");
        reveal_strlit("8");
        reveal_strlit("9");
        reveal_strlit("a");
        reveal_strlit("b");
        reveal_strlit("c");
        reveal_strlit("d");
        reveal_strlit("e");
        reveal_strlit("f");
    }
    let digit = if n == 0 {
        "0"
    } else if n == 1 {
        "1"
    } else if n == 2 {
        "2"
    } else if n == 3 {
        "3"
    } else if n == 4 {
        "4"
    } else if n == 5 {
        "5"
    } else if n == 6 {
        "6"
    } else if n == 7 {
        "7"
    } else if n == 8 {
        "8"
    } else if n == 9 {
        "9"
    } else if n == 10 {
        "a"
    } else if n == 11 {
        "b"
    } else if n == 12 {
        "c"
    } else if n == 13 {
        "d"
    } else if n == 14 {
        "e"
    } else {
        "f"
    };
    assert(digit@ =~= seq![hex_char(n)]);
    digit
}

/// The number that the ASCII code `c` of a lowercase hexadecimal digit stands for.
fn hex_value(c: u8) -> (r: Option<u8>)
    ensures
        r is Some ==> r->0 < 16 && hex_char(r->0) as u8 == c,
        r is None ==> forall|n: u8| hex_char(n) as u8 != c,
{
    if 48 <= c && c <= 57 {
        Some(c - 48)
    } else if 97 <= c && c <= 102 {
        Some(c - 87)
    } else {
        None
    }
}

impl Id {
    /// The id in lowercase hexadecimal, the form in which it is shown and
    /// used in file names.
    pub fn to_hex(&self) -> (text: String)
        ensures
            text@ == hex_chars(self@),
            text@.len() == 64,
    {
        let mut text = String::new();
        let mut i: usize = 0;
        while i < 32
            invariant
                i <= 32,
                text@ == hex_chars(self@.take(i as int)),
            decreases 32 - i,
        {
            let b = self.bytes[i];
            let ghost before = text@;
            text.append(hex_digit(b / 16));
            text.append(hex_digit(b % 16));
            proof {
                let now = hex_chars(self@.take(i + 1));
                assert(text@ =~= before + seq![hex_char(b / 16)] + seq![hex_char(b % 16)]);
                assert(text@.len() == now.len());
                assert forall|k: int| 0 <= k < now.len() implies text@[k] == now[k] by {
                    if k < 2 * i {
                        assert(self@.take(i + 1)[k / 2] == self@.take(i as int)[k / 2]);
                        assert(before[k] == now[k]);
                    }
                }
                assert(text@ =~= now);
            }
            i += 1;
        }
        assert(self@.take(32) =~= self@);
        text
    }

    /// The id that the text shows in lowercase hexadecimal, or `None` where
    /// the text is not the hexadecimal form of an id.
    pub fn from_hex(text: &str) -> (r: Option<Id>)
        ensures
            r is Some ==> text@ == hex_chars(r->0@),
            r is None ==> forall|id: Id| text@ != hex_chars(id@),
    {
        broadcast use vstd::string::is_ascii_spec_bytes;

        if !text.is_ascii() {
            proof {
                assert forall|id: Id| text@ != hex_chars(id@) by {
                    let i = choose|i: int|
                        0 <= i < text@.len() && !('\0' <= #[trigger] text@[i] <= '\u{7f}');
                    if text@.len() == 64 {
                        assert(hex_chars(id@)[i] != text@[i]);
                    }
                }
            }
            return None;
        }
        let bytes = text.as_bytes();
        if bytes.len() != 64 {
            return None;
        }
        let mut out = [0u8; 32];
        let mut i: usize = 0;
        while i < 32
            invariant
                i <= 32,
                bytes@.len() == 64,
                text@.len() == 64,
                vstd::string::is_ascii(text),
                forall|k: int| 0 <= k < 64 ==> #[trigger] bytes@[k] == text@[k] as u8,
                forall|k: int|
                    0 <= k < i ==> text@[2 * k] == hex_char(#[trigger] out@[k] / 16) && text@[2
                        * k + 1] == hex_char(out@[k] % 16),
            decreases 32 - i,
        {
            let high = hex_value(bytes[2 * i]);
            let low = hex_value(bytes[2 * i + 1]);
            match (high, low) {
                (Some(high), Some(low)) => {
                    out[i] = high * 16 + low;
                    proof {
                        assert(bytes@[2 * i] == text@[2 * i] as u8);
                        assert(bytes@[2 * i + 1] == text@[2 * i + 1] as u8);
                        assert('\0' <= text@[2 * i] <= '\u{7f}');
                        assert('\0' <= text@[2 * i + 1] <= '\u{7f}');
                    }
                },
                _ => {
                    proof {
                        assert(bytes@[2 * i] == text@[2 * i] as u8);
                        assert(bytes@[2 * i + 1] == text@[2 * i + 1] as u8);
                        assert forall|id: Id| text@ != hex_chars(id@) by {
                            let shown = hex_chars(id@);
                            assert(shown[2 * i] == hex_char(id@[i as int] / 16));
                            assert(shown[2 * i + 1] == hex_char(id@[i as int] % 16));
                        }
                    }
                    return None;
                },
            }
            i += 1;
        }
        let id = Id { bytes: out };
        proof {
            let shown = hex_chars(id@);
            assert forall|k: int| 0 <= k < 64 implies text@[k] == shown[k] by {
                let j = k / 2;
                assert(text@[2 * j] == hex_char(out@[j] / 16));
                assert(text@[2 * j + 1] == hex_char(out@[j] % 16));
            }
            assert(text@ =~= shown);
        }
        Some(id)
    }
}

/// An id is known by its hexadecimal form.
pub proof fn lemma_hex_injective(a: Seq<u8>, b: Seq<u8>)
    requires
        hex_chars(a) == hex_chars(b),
    ensures
        a == b,
{
    assert(a.len() == b.len()) by {
        assert(hex_chars(a).len() == 2 * a.len());
        assert(hex_chars(b).len() == 2 * b.len());
    }
    assert forall|i: int| 0 <= i < a.len() implies a[i] == b[i] by {
        assert(hex_chars(a)[2 * i] == hex_char(a[i] / 16));
        assert(hex_chars(b)[2 * i] == hex_char(b[i] / 16));
        assert(hex_chars(a)[2 * i + 1] == hex_char(a[i] % 16));
        assert(hex_chars(b)[2 * i + 1] == hex_char(b[i] % 16));
    }
    assert(a =~= b);
}

} // verus!
