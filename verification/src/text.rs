use vstd::prelude::*;

verus! {

/// The lower-case hexadecimal digit of `d` (for `d < 16`).
pub open spec fn hex_char(d: nat) -> char {
    if d < 10 {
        (('0' as nat) + d) as char
    } else {
        (('a' as nat) + (d - 10)) as char
    }
}

/// The last `width` lower-case hexadecimal digits of `v`, most significant
/// first, padded with zeros: `format!("{:0width$x}", v)` for `v < 16^width`.
pub open spec fn hex_fixed(v: nat, width: nat) -> Seq<char>
    decreases width,
{
    if width == 0 {
        Seq::empty()
    } else {
        hex_fixed(v / 16, (width - 1) as nat).push(hex_char(v % 16))
    }
}

/// The decimal digits of `n`, without leading zeros: `n.to_string()`.
pub open spec fn decimal(n: nat) -> Seq<char>
    decreases n,
{
    if n < 10 {
        seq![(('0' as nat) + n) as char]
    } else {
        decimal(n / 10).push((('0' as nat) + n % 10) as char)
    }
}

/// Each byte of `bytes` as two lower-case hexadecimal digits, in order.
pub open spec fn hex_bytes(bytes: Seq<u8>) -> Seq<char>
    decreases bytes.len(),
{
    if bytes.len() == 0 {
        Seq::empty()
    } else {
        hex_bytes(bytes.drop_last()) + hex_fixed(bytes.last() as nat, 2)
    }
}

/// The hyphenated lower-case text of a UUID given as its 128-bit big-endian
/// value: 8, 4, 4, 4 and 12 hexadecimal digits separated by `-`.
pub open spec fn uuid_text(id: u128) -> Seq<char> {
    let v = id as nat;
    hex_fixed(v / 0x1_0000_0000_0000_0000_0000_0000, 8) + seq!['-'] + hex_fixed(
        (v / 0x1_0000_0000_0000_0000_0000) % 0x1_0000,
        4,
    ) + seq!['-'] + hex_fixed((v / 0x1_0000_0000_0000_0000) % 0x1_0000, 4) + seq!['-'] + hex_fixed(
        (v / 0x1_0000_0000_0000) % 0x1_0000,
        4,
    ) + seq!['-'] + hex_fixed(v % 0x1_0000_0000_0000, 12)
}

/// Appends `c` to `s` (`String::push`).
#[verifier::external_body]
pub(crate) fn string_push(s: &mut String, c: char)
    ensures
        final(s)@ == old(s)@.push(c),
{
    s.push(c);
}

/// Appends `t` to `s` (`String::push_str`).
#[verifier::external_body]
pub(crate) fn string_push_str(s: &mut String, t: &str)
    ensures
        final(s)@ == old(s)@ + t@,
{
    s.push_str(t);
}

/// The hexadecimal digit of `d`.
pub fn hex_digit(d: u8) -> (c: char)
    requires
        d < 16,
    ensures
        c == hex_char(d as nat),
{
    if d < 10 {
        ((48u8 + d) as char)
    } else {
        ((97u8 + (d - 10)) as char)
    }
}

/// Appends the last `width` hexadecimal digits of `v`.
pub fn push_hex_fixed(s: &mut String, v: u128, width: u32)
    ensures
        final(s)@ == old(s)@ + hex_fixed(v as nat, width as nat),
    decreases width,
{
    if width == 0 {
        proof {
            assert(old(s)@ + hex_fixed(v as nat, 0) =~= old(s)@);
        }
        return;
    }
    push_hex_fixed(s, v / 16, width - 1);
    string_push(s, hex_digit((v % 16) as u8));
    proof {
        assert(final(s)@ =~= old(s)@ + hex_fixed(v as nat, width as nat)) by {
            let w = width as nat;
            assert(hex_fixed(v as nat, w) == hex_fixed((v as nat) / 16, (w - 1) as nat).push(
                hex_char((v as nat) % 16),
            ));
        }
    }
}

/// Appends the decimal digits of `n`.
pub fn push_decimal(s: &mut String, n: u64)
    ensures
        final(s)@ == old(s)@ + decimal(n as nat),
    decreases n,
{
    if n < 10 {
        string_push(s, ((48u8 + n as u8) as char));
        proof {
            assert(final(s)@ =~= old(s)@ + decimal(n as nat));
        }
        return;
    }
    push_decimal(s, n / 10);
    string_push(s, ((48u8 + (n % 10) as u8) as char));
    proof {
        assert(final(s)@ =~= old(s)@ + decimal(n as nat));
    }
}

/// `n` in decimal.
pub fn decimal_string(n: u64) -> (r: String)
    ensures
        r@ == decimal(n as nat),
{
    let mut s = String::new();
    push_decimal(&mut s, n);
    proof {
        assert(s@ =~= decimal(n as nat));
    }
    s
}

/// Each byte as two lower-case hexadecimal digits.
pub fn hex_lower(bytes: &[u8]) -> (r: String)
    ensures
        r@ == hex_bytes(bytes@),
{
    let mut s = String::new();
    let mut i: usize = 0;
    while i < bytes.len()
        invariant
            i <= bytes@.len(),
            s@ == hex_bytes(bytes@.take(i as int)),
        decreases bytes@.len() - i,
    {
        let ghost prefix = bytes@.take(i as int);
        push_hex_fixed(&mut s, bytes[i] as u128, 2);
        proof {
            let next = bytes@.take(i as int + 1);
            assert(next.drop_last() =~= prefix);
            assert(next.last() == bytes@[i as int]);
        }
        i = i + 1;
    }
    proof {
        assert(bytes@.take(bytes@.len() as int) =~= bytes@);
    }
    s
}

/// The hyphenated lower-case text of a UUID (as `uuid` prints it).
pub fn uuid_string(id: u128) -> (r: String)
    ensures
        r@ == uuid_text(id),
{
    let mut s = String::new();
    push_hex_fixed(&mut s, id / 0x1_0000_0000_0000_0000_0000_0000, 8);
    string_push(&mut s, '-');
    push_hex_fixed(&mut s, (id / 0x1_0000_0000_0000_0000_0000) % 0x1_0000, 4);
    string_push(&mut s, '-');
    push_hex_fixed(&mut s, (id / 0x1_0000_0000_0000_0000) % 0x1_0000, 4);
    string_push(&mut s, '-');
    push_hex_fixed(&mut s, (id / 0x1_0000_0000_0000) % 0x1_0000, 4);
    string_push(&mut s, '-');
    push_hex_fixed(&mut s, id % 0x1_0000_0000_0000, 12);
    proof {
        assert(s@ =~= uuid_text(id));
    }
    s
}

/// `s` with every `from` replaced by `to`.
pub open spec fn replace_char(s: Seq<char>, from: char, to: char) -> Seq<char> {
    s.map_values(|c: char| if c == from { to } else { c })
}

/// The characters of `s`.
pub fn chars_of(s: &str) -> (r: Vec<char>)
    ensures
        r@ == s@,
{
    broadcast use vstd::string::group_string_axioms;
    let mut r: Vec<char> = Vec::new();
    for c in it: s.chars()
        invariant
            r@.len() == it.index(),
            forall|j: int| 0 <= j < r@.len() ==> r@[j] == it.seq()[j],
            it.seq() == s@,
    {
        r.push(c);
    }
    proof {
        assert(r@ =~= s@);
    }
    r
}


/// Whether two texts are equal.
pub fn same_text(a: &str, b: &str) -> (r: bool)
    ensures
        r == (a@ == b@),
{
    let x = chars_of(a);
    let y = chars_of(b);
    if x.len() != y.len() {
        return false;
    }
    let mut i: usize = 0;
    while i < x.len()
        invariant
            i <= x@.len(),
            x@.len() == y@.len(),
            x@ == a@,
            y@ == b@,
            forall|j: int| 0 <= j < i ==> x@[j] == y@[j],
        decreases x@.len() - i,
    {
        if x[i] != y[i] {
            return false;
        }
        i = i + 1;
    }
    proof {
        assert(x@ =~= y@);
    }
    true
}

/// `needle` occurs in `hay` as a contiguous piece.
pub open spec fn occurs_in(needle: Seq<char>, hay: Seq<char>) -> bool {
    exists|i: int| 0 <= i && i + needle.len() <= hay.len() && #[trigger] hay.subrange(i, i + needle.len()) == needle
}

/// Whether `needle` occurs in `hay` (`str::contains` with a text pattern).
pub fn contains_text(hay: &str, needle: &str) -> (r: bool)
    ensures
        r == occurs_in(needle@, hay@),
{
    let h = chars_of(hay);
    let n = chars_of(needle);
    if n.len() > h.len() {
        proof {
            assert forall|i: int| 0 <= i && i + n@.len() <= h@.len() implies #[trigger] h@.subrange(i, i + n@.len()) != n@ by {}
        }
        return false;
    }
    let hl: usize = h.len();
    let last: usize = hl - n.len();
    let mut i: usize = 0;
    loop
        invariant
            h@ == hay@,
            hl == h@.len(),
            n@ == needle@,
            n@.len() <= h@.len(),
            last == h@.len() - n@.len(),
            i <= last,
            forall|k: int| 0 <= k < i ==> #[trigger] h@.subrange(k, k + n@.len()) != n@,
        decreases last - i,
    {
        let mut j: usize = 0;
        let mut same = true;
        while j < n.len()
            invariant
                h@ == hay@,
                n@ == needle@,
                n@.len() <= h@.len(),
                i <= last,
                last == h@.len() - n@.len(),
                j <= n@.len(),
                same == (forall|t: int| 0 <= t < j ==> h@[i + t] == n@[t]),
                hl == h@.len(),
            decreases n@.len() - j,
        {
            if h[i + j] != n[j] {
                same = false;
            }
            j = j + 1;
        }
        if same {
            proof {
                assert(h@.subrange(i as int, i + n@.len()) =~= n@);
            }
            return true;
        }
        proof {
            let t = choose|t: int| 0 <= t < n@.len() && h@[i + t] != n@[t];
            assert(h@.subrange(i as int, i + n@.len())[t] != n@[t]);
        }
        if i == last {
            return false;
        }
        i = i + 1;
    }
}

/// What `str::to_lowercase` returns for `s`.
pub uninterp spec fn lowercase(s: Seq<char>) -> Seq<char>;

/// `str::to_lowercase`: the result is named by `lowercase`.
#[verifier::external_body]
pub(crate) fn to_lowercase(s: &str) -> (r: String)
    ensures
        r@ == lowercase(s@),
{
    s.to_lowercase()
}

/// The text of `v` from index `start` on.
pub fn string_from_chars(v: &Vec<char>, start: usize) -> (r: String)
    requires
        start <= v@.len(),
    ensures
        r@ == v@.skip(start as int),
{
    let mut r = String::new();
    let mut i: usize = start;
    while i < v.len()
        invariant
            start <= i <= v@.len(),
            r@ == v@.subrange(start as int, i as int),
        decreases v@.len() - i,
    {
        string_push(&mut r, v[i]);
        i = i + 1;
        proof {
            assert(r@ =~= v@.subrange(start as int, i as int));
        }
    }
    proof {
        assert(v@.subrange(start as int, v@.len() as int) =~= v@.skip(start as int));
    }
    r
}

/// A fixed-width hexadecimal text has exactly its width in digits.
pub proof fn law_hex_fixed_width(v: nat, width: nat)
    ensures
        hex_fixed(v, width).len() == width,
    decreases width,
{
    if width > 0 {
        law_hex_fixed_width(v / 16, (width - 1) as nat);
    }
}

/// The text of a UUID is 36 characters long.
pub proof fn law_uuid_text_length(id: u128)
    ensures
        uuid_text(id).len() == 36,
{
    let v = id as nat;
    law_hex_fixed_width(v / 0x1_0000_0000_0000_0000_0000_0000, 8);
    law_hex_fixed_width((v / 0x1_0000_0000_0000_0000_0000) % 0x1_0000, 4);
    law_hex_fixed_width((v / 0x1_0000_0000_0000_0000) % 0x1_0000, 4);
    law_hex_fixed_width((v / 0x1_0000_0000_0000) % 0x1_0000, 4);
    law_hex_fixed_width(v % 0x1_0000_0000_0000, 12);
}

} // verus!
