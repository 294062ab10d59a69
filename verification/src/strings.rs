//! Textual names of bindings: a verified decimal formatter and the
//! `to_string` / `get_inner_string` methods.
//!
//! A binding renders as its outer family name, with the inner key, button
//! or axis code in parentheses where one exists: `Key(32)`,
//! `GamepadAxisPos(0)`, `MouseMoveX`.

use vstd::prelude::*;

use crate::values::Binding;

verus! {

/// The decimal digit character for one digit value.
pub open spec fn digit_char(d: int) -> char {
    if d == 0 { '0' }
    else if d == 1 { '1' }
    else if d == 2 { '2' }
    else if d == 3 { '3' }
    else if d == 4 { '4' }
    else if d == 5 { '5' }
    else if d == 6 { '6' }
    else if d == 7 { '7' }
    else if d == 8 { '8' }
    else { '9' }
}

/// The decimal rendering of a number, most significant digit first.
pub open spec fn dec_str(n: nat) -> Seq<char>
    decreases n,
{
    if n < 10 {
        seq![digit_char(n as int)]
    } else {
        dec_str(n / 10).push(digit_char((n % 10) as int))
    }
}

/// One decimal digit as a string slice.
fn digit_str(d: u32) -> (r: &'static str)
    requires
        d < 10,
    ensures
        r@ == seq![digit_char(d as int)],
{
    proof {
        reveal_strlit("0");
        reveal_strlit("1");
        reveal_strlit("2");
        reveal_strlit("3");
        reveal_strlit("4");
        reveal_strlit("5");
        reveal_strlit("6");
        reveal_strlit("7");
        reveal_strlit("8");
        reveal_strlit("9");
    }
    let r: &'static str = match d {
        0 => "0",
        1 => "1",
        2 => "2",
        3 => "3",
        4 => "4",
        5 => "5",
        6 => "6",
        7 => "7",
        8 => "8",
        _ => "9",
    };
    assert(r@ =~= seq![digit_char(d as int)]);
    r
}

/// Renders a code in decimal.
pub fn u32_to_string(n: u32) -> (s: String)
    ensures
        s@ == dec_str(n as nat),
    decreases n,
{
    if n < 10 {
        String::from_str(digit_str(n))
    } else {
        let mut s = u32_to_string(n / 10);
        s.append(digit_str(n % 10));
        assert(s@ =~= dec_str(n as nat));
        s
    }
}

impl Binding {
    /// The full textual name of a binding: the outer family name, with the
    /// inner code in parentheses where the binding carries one.
    pub open spec fn name_str(self) -> Seq<char> {
        match self {
            Self::Key(x) => self.outer_name() + "("@ + dec_str(x as nat) + ")"@,
            Self::GamepadAxis(x) => self.outer_name() + "("@ + dec_str(x as nat) + ")"@,
            Self::GamepadAxisPos(x) => self.outer_name() + "("@ + dec_str(x as nat) + ")"@,
            Self::GamepadAxisNeg(x) => self.outer_name() + "("@ + dec_str(x as nat) + ")"@,
            Self::GamepadButton(x) => self.outer_name() + "("@ + dec_str(x as nat) + ")"@,
            Self::MouseButton(x) => self.outer_name() + "("@ + dec_str(x as nat) + ")"@,
            _ => self.outer_name(),
        }
    }

    /// The inner part of a binding's name: its key, button or axis code in
    /// decimal, or the whole name for bindings without a code.
    pub open spec fn inner_str(self) -> Seq<char> {
        match self {
            Self::Key(x) => dec_str(x as nat),
            Self::GamepadAxis(x) => dec_str(x as nat),
            Self::GamepadButton(x) => dec_str(x as nat),
            Self::MouseButton(x) => dec_str(x as nat),
            _ => self.name_str(),
        }
    }

    /// Renders the binding's full textual name.
    pub fn to_string(&self) -> (s: String)
        ensures
            s@ == self.name_str(),
    {
        let code: Option<u32> = match self {
            Self::Key(x) => Some(*x),
            Self::GamepadAxis(x) => Some(*x),
            Self::GamepadAxisPos(x) => Some(*x),
            Self::GamepadAxisNeg(x) => Some(*x),
            Self::GamepadButton(x) => Some(*x),
            Self::MouseButton(x) => Some(*x),
            _ => None,
        };
        let mut s = String::from_str(self.get_outer_string());
        match code {
            Some(x) => {
                proof {
                    reveal_strlit("(");
                    reveal_strlit(")");
                }
                s.append("(");
                let num = u32_to_string(x);
                s.append(num.as_str());
                s.append(")");
                assert(s@ =~= self.name_str());
                s
            },
            None => {
                assert(s@ =~= self.name_str());
                s
            },
        }
    }

    /// Renders the binding's inner code, or its whole name when it carries
    /// none.
    pub fn get_inner_string(&self) -> (s: String)
        ensures
            s@ == self.inner_str(),
    {
        match self {
            Self::Key(x) => u32_to_string(*x),
            Self::GamepadAxis(x) => u32_to_string(*x),
            Self::GamepadButton(x) => u32_to_string(*x),
            Self::MouseButton(x) => u32_to_string(*x),
            _ => self.to_string(),
        }
    }
}

/// The digit value of a character, if it is a decimal digit.
pub open spec fn digit_val(c: char) -> Option<int> {
    if c == '0' { Some(0int) }
    else if c == '1' { Some(1int) }
    else if c == '2' { Some(2int) }
    else if c == '3' { Some(3int) }
    else if c == '4' { Some(4int) }
    else if c == '5' { Some(5int) }
    else if c == '6' { Some(6int) }
    else if c == '7' { Some(7int) }
    else if c == '8' { Some(8int) }
    else if c == '9' { Some(9int) }
    else { None }
}

/// The number a digit sequence denotes, most significant digit first;
/// nothing for an empty sequence or one with a non-digit.
pub open spec fn parse_dec(t: Seq<char>) -> Option<int>
    decreases t.len(),
{
    if t.len() == 0 {
        None
    } else if t.len() == 1 {
        digit_val(t[0])
    } else {
        match parse_dec(t.drop_last()) {
            Some(v) => match digit_val(t.last()) {
                Some(d) => Some(10 * v + d),
                None => None,
            },
            None => None,
        }
    }
}

/// Whether `t` begins with `p`.
pub open spec fn starts_with(t: Seq<char>, p: Seq<char>) -> bool {
    p.len() <= t.len() && t.take(p.len() as int) == p
}

/// The code inside the parentheses after a prefix of length `plen`, when
/// the rest of `t` is a parenthesized decimal that fits a code.
pub open spec fn parse_payload(t: Seq<char>, plen: int) -> Option<u32> {
    if t.len() >= plen + 2 && t.last() == ')' {
        match parse_dec(t.subrange(plen, t.len() - 1)) {
            Some(v) => if 0 <= v <= u32::MAX { Some(v as u32) } else { None },
            None => None,
        }
    } else {
        None
    }
}

impl Binding {
    /// The binding a textual name denotes, if any: a family name with a
    /// parenthesized decimal code, or a plain name.
    pub open spec fn parse_spec(t: Seq<char>) -> Option<Binding> {
        if starts_with(t, "GamepadAxisPos("@) {
            match parse_payload(t, "GamepadAxisPos("@.len() as int) {
                Some(x) => Some(Binding::GamepadAxisPos(x)),
                None => None,
            }
        } else if starts_with(t, "GamepadAxisNeg("@) {
            match parse_payload(t, "GamepadAxisNeg("@.len() as int) {
                Some(x) => Some(Binding::GamepadAxisNeg(x)),
                None => None,
            }
        } else if starts_with(t, "GamepadAxis("@) {
            match parse_payload(t, "GamepadAxis("@.len() as int) {
                Some(x) => Some(Binding::GamepadAxis(x)),
                None => None,
            }
        } else if starts_with(t, "GamepadButton("@) {
            match parse_payload(t, "GamepadButton("@.len() as int) {
                Some(x) => Some(Binding::GamepadButton(x)),
                None => None,
            }
        } else if starts_with(t, "MouseButton("@) {
            match parse_payload(t, "MouseButton("@.len() as int) {
                Some(x) => Some(Binding::MouseButton(x)),
                None => None,
            }
        } else if starts_with(t, "Key("@) {
            match parse_payload(t, "Key("@.len() as int) {
                Some(x) => Some(Binding::Key(x)),
                None => None,
            }
        } else if t == "Unbound"@ { Some(Binding::Unbound) }
        else if t == "MouseMoveX"@ { Some(Binding::MouseMoveX) }
        else if t == "MouseMoveY"@ { Some(Binding::MouseMoveY) }
        else if t == "MouseMovePosX"@ { Some(Binding::MouseMovePosX) }
        else if t == "MouseMovePosY"@ { Some(Binding::MouseMovePosY) }
        else if t == "MouseMoveNegX"@ { Some(Binding::MouseMoveNegX) }
        else if t == "MouseMoveNegY"@ { Some(Binding::MouseMoveNegY) }
        else if t == "MouseScrollX"@ { Some(Binding::MouseScrollPixelX) }
        else if t == "MouseScrollY"@ { Some(Binding::MouseScrollPixelY) }
        else if t == "MouseScrollPosX"@ { Some(Binding::MouseScrollPixelPosX) }
        else if t == "MouseScrollPosY"@ { Some(Binding::MouseScrollPixelPosY) }
        else if t == "MouseScrollNegX"@ { Some(Binding::MouseScrollPixelNegX) }
        else if t == "MouseScrollNegY"@ { Some(Binding::MouseScrollPixelNegY) }
        else if t == "MouseScrollLineX"@ { Some(Binding::MouseScrollLineX) }
        else if t == "MouseScrollLineY"@ { Some(Binding::MouseScrollLineY) }
        else if t == "MouseScrollLinePosX"@ { Some(Binding::MouseScrollLinePosX) }
        else if t == "MouseScrollLinePosY"@ { Some(Binding::MouseScrollLinePosY) }
        else if t == "MouseScrollLineNegX"@ { Some(Binding::MouseScrollLineNegX) }
        else if t == "MouseScrollLineNegY"@ { Some(Binding::MouseScrollLineNegY) }
        else { None }
    }
}

/// Collects a string's characters.
fn collect_chars(s: &str) -> (r: Vec<char>)
    ensures
        r@ == s@,
{
    let n = s.unicode_len();
    let mut out: Vec<char> = Vec::new();
    let mut i: usize = 0;
    while i < n
        invariant
            i <= n,
            n == s@.len(),
            out@ == s@.take(i as int),
        decreases n - i,
    {
        proof {
            assert(s@.take(i + 1) =~= s@.take(i as int).push(s@[i as int]));
        }
        out.push(s.get_char(i));
        i = i + 1;
    }
    assert(s@.take(s@.len() as int) =~= s@);
    out
}

/// Whether the collected characters begin with a literal prefix.
fn chars_start_with(cv: &Vec<char>, p: &str) -> (r: bool)
    ensures
        r == starts_with(cv@, p@),
{
    let pl = p.unicode_len();
    if pl > cv.len() {
        return false;
    }
    let mut j: usize = 0;
    while j < pl
        invariant
            j <= pl,
            pl == p@.len(),
            pl <= cv@.len(),
            forall|k: int| 0 <= k < j ==> cv@[k] == p@[k],
        decreases pl - j,
    {
        if cv[j] != p.get_char(j) {
            assert(!starts_with(cv@, p@)) by {
                if starts_with(cv@, p@) {
                    assert(cv@.take(p@.len() as int)[j as int] == p@[j as int]);
                }
            }
            return false;
        }
        j = j + 1;
    }
    assert(cv@.take(p@.len() as int) =~= p@);
    true
}

/// Whether the collected characters equal a literal exactly.
fn chars_equal(cv: &Vec<char>, p: &str) -> (r: bool)
    ensures
        r == (cv@ == p@),
{
    if cv.len() != p.unicode_len() {
        assert(cv@.len() != p@.len());
        return false;
    }
    if chars_start_with(cv, p) {
        assert(cv@.take(p@.len() as int) =~= cv@);
        true
    } else {
        assert(cv@ != p@) by {
            if cv@ == p@ {
                assert(cv@.take(p@.len() as int) =~= p@);
            }
        }
        false
    }
}

/// Growing a digit sequence on the right never shrinks its value.
proof fn lemma_parse_dec_monotone(t: Seq<char>, k: int)
    requires
        1 <= k <= t.len(),
        parse_dec(t) is Some,
        parse_dec(t.take(k)) is Some,
        parse_dec(t.take(k))->0 >= 0,
    ensures
        parse_dec(t)->0 >= parse_dec(t.take(k))->0,
    decreases t.len(),
{
    if k == t.len() {
        assert(t.take(k) =~= t);
    } else {
        assert(t.drop_last().take(k) =~= t.take(k));
        if t.len() == 1 {
        } else {
            lemma_parse_dec_monotone(t.drop_last(), k);
        }
    }
}

/// Every proper prefix of an accepted digit sequence is itself accepted.
proof fn lemma_parse_dec_prefix(t: Seq<char>, k: int)
    requires
        1 <= k <= t.len(),
        parse_dec(t) is Some,
    ensures
        parse_dec(t.take(k)) is Some,
        parse_dec(t.take(k))->0 >= 0,
    decreases t.len(),
{
    if t.len() == 1 {
        assert(t.take(1) =~= t);
    } else if k == t.len() {
        assert(t.take(k) =~= t);
        lemma_parse_dec_prefix(t.drop_last(), t.len() - 1);
        assert(t.drop_last().take(t.len() - 1) =~= t.drop_last());
    } else {
        assert(t.drop_last().take(k) =~= t.take(k));
        lemma_parse_dec_prefix(t.drop_last(), k);
    }
}

/// Reads the decimal code in `cv[from..to]`, when it is one that fits.
fn parse_code(cv: &Vec<char>, from: usize, to: usize) -> (r: Option<u32>)
    requires
        from <= to <= cv@.len(),
    ensures
        r == match parse_dec(cv@.subrange(from as int, to as int)) {
            Some(v) => if 0 <= v <= u32::MAX { Some(v as u32) } else { None::<u32> },
            None => None::<u32>,
        },
{
    let t = Ghost(cv@.subrange(from as int, to as int));
    if from == to {
        return None;
    }
    let mut acc: u64 = 0;
    let mut j: usize = from;
    while j < to
        invariant
            from <= j <= to <= cv@.len(),
            t@ == cv@.subrange(from as int, to as int),
            j > from ==> parse_dec(t@.take(j - from)) == Some(acc as int),
            j == from ==> acc == 0,
            acc <= u32::MAX,
        decreases to - j,
    {
        let c = cv[j];
        let d: u64 = match c {
            '0' => 0,
            '1' => 1,
            '2' => 2,
            '3' => 3,
            '4' => 4,
            '5' => 5,
            '6' => 6,
            '7' => 7,
            '8' => 8,
            '9' => 9,
            _ => 10,
        };
        if d == 10 {
            proof {
                assert(digit_val(t@[j - from]) is None);
                if parse_dec(t@) is Some {
                    lemma_parse_dec_digits(t@, j - from);
                }
            }
            return None;
        }
        proof {
            assert(digit_val(t@[j - from]) == Some(d as int));
            assert(t@.take(j - from + 1).drop_last() =~= t@.take(j - from));
            assert(t@.take(j - from + 1).last() == t@[j - from]);
        }
        let next: u64 = acc * 10 + d;
        if next > u32::MAX as u64 {
            proof {
                if parse_dec(t@) is Some {
                    lemma_parse_dec_prefix(t@, j - from + 1);
                    lemma_parse_dec_monotone(t@, j - from + 1);
                }
            }
            return None;
        }
        acc = next;
        j = j + 1;
    }
    assert(t@.take(to - from) =~= t@);
    Some(acc as u32)
}

/// A digit sequence with a non-digit at some position is not accepted.
proof fn lemma_parse_dec_digits(t: Seq<char>, i: int)
    requires
        0 <= i < t.len(),
        digit_val(t[i]) is None,
    ensures
        parse_dec(t) is None,
    decreases t.len(),
{
    if t.len() > 1 {
        if i < t.len() - 1 {
            assert(t.drop_last()[i] == t[i]);
            lemma_parse_dec_digits(t.drop_last(), i);
        }
    }
}

impl Binding {
    /// Reads a binding back from its textual name, as `to_string` writes
    /// it; any other text gives nothing.
    pub fn from_str(s: &str) -> (r: Option<Binding>)
        ensures
            r == Self::parse_spec(s@),
    {
        let cv = collect_chars(s);
        if chars_start_with(&cv, "GamepadAxisPos(") {
            return Self::payload_of(&cv, "GamepadAxisPos(", 0);
        }
        if chars_start_with(&cv, "GamepadAxisNeg(") {
            return Self::payload_of(&cv, "GamepadAxisNeg(", 1);
        }
        if chars_start_with(&cv, "GamepadAxis(") {
            return Self::payload_of(&cv, "GamepadAxis(", 2);
        }
        if chars_start_with(&cv, "GamepadButton(") {
            return Self::payload_of(&cv, "GamepadButton(", 3);
        }
        if chars_start_with(&cv, "MouseButton(") {
            return Self::payload_of(&cv, "MouseButton(", 4);
        }
        if chars_start_with(&cv, "Key(") {
            return Self::payload_of(&cv, "Key(", 5);
        }
        if chars_equal(&cv, "Unbound") { return Some(Self::Unbound); }
        if chars_equal(&cv, "MouseMoveX") { return Some(Self::MouseMoveX); }
        if chars_equal(&cv, "MouseMoveY") { return Some(Self::MouseMoveY); }
        if chars_equal(&cv, "MouseMovePosX") { return Some(Self::MouseMovePosX); }
        if chars_equal(&cv, "MouseMovePosY") { return Some(Self::MouseMovePosY); }
        if chars_equal(&cv, "MouseMoveNegX") { return Some(Self::MouseMoveNegX); }
        if chars_equal(&cv, "MouseMoveNegY") { return Some(Self::MouseMoveNegY); }
        if chars_equal(&cv, "MouseScrollX") { return Some(Self::MouseScrollPixelX); }
        if chars_equal(&cv, "MouseScrollY") { return Some(Self::MouseScrollPixelY); }
        if chars_equal(&cv, "MouseScrollPosX") { return Some(Self::MouseScrollPixelPosX); }
        if chars_equal(&cv, "MouseScrollPosY") { return Some(Self::MouseScrollPixelPosY); }
        if chars_equal(&cv, "MouseScrollNegX") { return Some(Self::MouseScrollPixelNegX); }
        if chars_equal(&cv, "MouseScrollNegY") { return Some(Self::MouseScrollPixelNegY); }
        if chars_equal(&cv, "MouseScrollLineX") { return Some(Self::MouseScrollLineX); }
        if chars_equal(&cv, "MouseScrollLineY") { return Some(Self::MouseScrollLineY); }
        if chars_equal(&cv, "MouseScrollLinePosX") { return Some(Self::MouseScrollLinePosX); }
        if chars_equal(&cv, "MouseScrollLinePosY") { return Some(Self::MouseScrollLinePosY); }
        if chars_equal(&cv, "MouseScrollLineNegX") { return Some(Self::MouseScrollLineNegX); }
        if chars_equal(&cv, "MouseScrollLineNegY") { return Some(Self::MouseScrollLineNegY); }
        None
    }

    /// Reads the parenthesized code after `prefix` and wraps it in the
    /// family `which` stands for.
    fn payload_of(cv: &Vec<char>, prefix: &str, which: u8) -> (r: Option<Binding>)
        requires
            which <= 5,
            starts_with(cv@, prefix@),
        ensures
            r == match parse_payload(cv@, prefix@.len() as int) {
                Some(x) => Some(
                    match which {
                        0u8 => Binding::GamepadAxisPos(x),
                        1u8 => Binding::GamepadAxisNeg(x),
                        2u8 => Binding::GamepadAxis(x),
                        3u8 => Binding::GamepadButton(x),
                        4u8 => Binding::MouseButton(x),
                        _ => Binding::Key(x),
                    },
                ),
                None => None::<Binding>,
            },
    {
        let pl = prefix.unicode_len();
        let n = cv.len();
        assert(pl <= n);
        if n - pl < 2 {
            return None;
        }
        let last = cv[n - 1];
        if last != ')' {
            assert(cv@.last() != ')');
            return None;
        }
        assert(cv@.last() == ')');
        let code = parse_code(cv, pl, n - 1);
        match code {
            Some(x) => Some(
                match which {
                    0 => Binding::GamepadAxisPos(x),
                    1 => Binding::GamepadAxisNeg(x),
                    2 => Binding::GamepadAxis(x),
                    3 => Binding::GamepadButton(x),
                    4 => Binding::MouseButton(x),
                    _ => Binding::Key(x),
                },
            ),
            None => None,
        }
    }
}

/// A decimal rendering is never empty.
proof fn lemma_dec_str_len(n: nat)
    ensures
        dec_str(n).len() >= 1,
    decreases n,
{
    if n >= 10 {
        lemma_dec_str_len(n / 10);
    }
}

/// Reading back a decimal rendering gives the number it renders.
proof fn lemma_parse_dec_of_dec_str(n: nat)
    ensures
        parse_dec(dec_str(n)) == Some(n as int),
    decreases n,
{
    if n < 10 {
    } else {
        lemma_parse_dec_of_dec_str(n / 10);
        lemma_dec_str_len(n / 10);
        let t = dec_str(n);
        assert(t.drop_last() == dec_str(n / 10));
        assert(t.last() == digit_char((n % 10) as int));
        assert(digit_val(digit_char((n % 10) as int)) == Some((n % 10) as int));
    }
}

/// Round trip: reading a binding's rendered name back gives the binding.
pub proof fn lemma_name_round_trip(b: Binding)
    ensures
        Binding::parse_spec(b.name_str()) == Some(b),
{
        reveal_strlit("(");
        reveal_strlit(")");
        reveal_strlit("GamepadAxis");
        reveal_strlit("GamepadAxis(");
        reveal_strlit("GamepadAxisNeg");
        reveal_strlit("GamepadAxisNeg(");
        reveal_strlit("GamepadAxisPos");
        reveal_strlit("GamepadAxisPos(");
        reveal_strlit("GamepadButton");
        reveal_strlit("GamepadButton(");
        reveal_strlit("Key");
        reveal_strlit("Key(");
        reveal_strlit("MouseButton");
        reveal_strlit("MouseButton(");
        reveal_strlit("MouseMoveNegX");
        reveal_strlit("MouseMoveNegY");
        reveal_strlit("MouseMovePosX");
        reveal_strlit("MouseMovePosY");
        reveal_strlit("MouseMoveX");
        reveal_strlit("MouseMoveY");
        reveal_strlit("MouseScrollLineNegX");
        reveal_strlit("MouseScrollLineNegY");
        reveal_strlit("MouseScrollLinePosX");
        reveal_strlit("MouseScrollLinePosY");
        reveal_strlit("MouseScrollLineX");
        reveal_strlit("MouseScrollLineY");
        reveal_strlit("MouseScrollNegX");
        reveal_strlit("MouseScrollNegY");
        reveal_strlit("MouseScrollPosX");
        reveal_strlit("MouseScrollPosY");
        reveal_strlit("MouseScrollX");
        reveal_strlit("MouseScrollY");
        reveal_strlit("Unbound");
    match b {
        Binding::GamepadAxisPos(x) => {
            let t = b.name_str();
            lemma_dec_str_len(x as nat);
            lemma_parse_dec_of_dec_str(x as nat);
            assert(("GamepadAxisPos"@ + "("@) =~= "GamepadAxisPos("@);
            assert(t =~= "GamepadAxisPos("@ + (dec_str(x as nat) + ")"@));
            assert(starts_with(t, "GamepadAxisPos("@)) by {
                assert(t.take("GamepadAxisPos("@.len() as int) =~= "GamepadAxisPos("@);
            }
            let plen = "GamepadAxisPos("@.len() as int;
            assert(t.len() == plen + dec_str(x as nat).len() + 1);
            assert(t.last() == ')');
            assert(t.subrange(plen, t.len() - 1) =~= dec_str(x as nat));
            assert(parse_payload(t, plen) == Some(x));
        },
        Binding::GamepadAxisNeg(x) => {
            let t = b.name_str();
            lemma_dec_str_len(x as nat);
            lemma_parse_dec_of_dec_str(x as nat);
            assert(("GamepadAxisNeg"@ + "("@) =~= "GamepadAxisNeg("@);
            assert(t =~= "GamepadAxisNeg("@ + (dec_str(x as nat) + ")"@));
            assert(t[11] == "GamepadAxisNeg("@[11] && "GamepadAxisNeg("@[11] != "GamepadAxisPos("@[11]);
            assert(starts_with(t, "GamepadAxisNeg("@)) by {
                assert(t.take("GamepadAxisNeg("@.len() as int) =~= "GamepadAxisNeg("@);
            }
            let plen = "GamepadAxisNeg("@.len() as int;
            assert(t.len() == plen + dec_str(x as nat).len() + 1);
            assert(t.last() == ')');
            assert(t.subrange(plen, t.len() - 1) =~= dec_str(x as nat));
            assert(parse_payload(t, plen) == Some(x));
        },
        Binding::GamepadAxis(x) => {
            let t = b.name_str();
            lemma_dec_str_len(x as nat);
            lemma_parse_dec_of_dec_str(x as nat);
            assert(("GamepadAxis"@ + "("@) =~= "GamepadAxis("@);
            assert(t =~= "GamepadAxis("@ + (dec_str(x as nat) + ")"@));
            assert(t[11] == "GamepadAxis("@[11] && "GamepadAxis("@[11] != "GamepadAxisPos("@[11]);
            assert(t[11] == "GamepadAxis("@[11] && "GamepadAxis("@[11] != "GamepadAxisNeg("@[11]);
            assert(starts_with(t, "GamepadAxis("@)) by {
                assert(t.take("GamepadAxis("@.len() as int) =~= "GamepadAxis("@);
            }
            let plen = "GamepadAxis("@.len() as int;
            assert(t.len() == plen + dec_str(x as nat).len() + 1);
            assert(t.last() == ')');
            assert(t.subrange(plen, t.len() - 1) =~= dec_str(x as nat));
            assert(parse_payload(t, plen) == Some(x));
        },
        Binding::GamepadButton(x) => {
            let t = b.name_str();
            lemma_dec_str_len(x as nat);
            lemma_parse_dec_of_dec_str(x as nat);
            assert(("GamepadButton"@ + "("@) =~= "GamepadButton("@);
            assert(t =~= "GamepadButton("@ + (dec_str(x as nat) + ")"@));
            assert(t[7] == "GamepadButton("@[7] && "GamepadButton("@[7] != "GamepadAxisPos("@[7]);
            assert(t[7] == "GamepadButton("@[7] && "GamepadButton("@[7] != "GamepadAxisNeg("@[7]);
            assert(t[7] == "GamepadButton("@[7] && "GamepadButton("@[7] != "GamepadAxis("@[7]);
            assert(starts_with(t, "GamepadButton("@)) by {
                assert(t.take("GamepadButton("@.len() as int) =~= "GamepadButton("@);
            }
            let plen = "GamepadButton("@.len() as int;
            assert(t.len() == plen + dec_str(x as nat).len() + 1);
            assert(t.last() == ')');
            assert(t.subrange(plen, t.len() - 1) =~= dec_str(x as nat));
            assert(parse_payload(t, plen) == Some(x));
        },
        Binding::MouseButton(x) => {
            let t = b.name_str();
            lemma_dec_str_len(x as nat);
            lemma_parse_dec_of_dec_str(x as nat);
            assert(("MouseButton"@ + "("@) =~= "MouseButton("@);
            assert(t =~= "MouseButton("@ + (dec_str(x as nat) + ")"@));
            assert(t[0] == "MouseButton("@[0] && "MouseButton("@[0] != "GamepadAxisPos("@[0]);
            assert(t[0] == "MouseButton("@[0] && "MouseButton("@[0] != "GamepadAxisNeg("@[0]);
            assert(t[0] == "MouseButton("@[0] && "MouseButton("@[0] != "GamepadAxis("@[0]);
            assert(t[0] == "MouseButton("@[0] && "MouseButton("@[0] != "GamepadButton("@[0]);
            assert(starts_with(t, "MouseButton("@)) by {
                assert(t.take("MouseButton("@.len() as int) =~= "MouseButton("@);
            }
            let plen = "MouseButton("@.len() as int;
            assert(t.len() == plen + dec_str(x as nat).len() + 1);
            assert(t.last() == ')');
            assert(t.subrange(plen, t.len() - 1) =~= dec_str(x as nat));
            assert(parse_payload(t, plen) == Some(x));
        },
        Binding::Key(x) => {
            let t = b.name_str();
            lemma_dec_str_len(x as nat);
            lemma_parse_dec_of_dec_str(x as nat);
            assert(("Key"@ + "("@) =~= "Key("@);
            assert(t =~= "Key("@ + (dec_str(x as nat) + ")"@));
            assert(t[0] == "Key("@[0] && "Key("@[0] != "GamepadAxisPos("@[0]);
            assert(t[0] == "Key("@[0] && "Key("@[0] != "GamepadAxisNeg("@[0]);
            assert(t[0] == "Key("@[0] && "Key("@[0] != "GamepadAxis("@[0]);
            assert(t[0] == "Key("@[0] && "Key("@[0] != "GamepadButton("@[0]);
            assert(t[0] == "Key("@[0] && "Key("@[0] != "MouseButton("@[0]);
            assert(starts_with(t, "Key("@)) by {
                assert(t.take("Key("@.len() as int) =~= "Key("@);
            }
            let plen = "Key("@.len() as int;
            assert(t.len() == plen + dec_str(x as nat).len() + 1);
            assert(t.last() == ')');
            assert(t.subrange(plen, t.len() - 1) =~= dec_str(x as nat));
            assert(parse_payload(t, plen) == Some(x));
        },
        Binding::Unbound => {
            let t = b.name_str();
            assert(t == "Unbound"@);
            assert(t[0] != "GamepadAxisPos("@[0]);
            assert(t[0] != "GamepadAxisNeg("@[0]);
            assert(t[0] != "GamepadAxis("@[0]);
            assert(t[0] != "GamepadButton("@[0]);
            assert(t[0] != "MouseButton("@[0]);
            assert(t[0] != "Key("@[0]);
        },
        Binding::MouseMoveX => {
            let t = b.name_str();
            assert(t == "MouseMoveX"@);
            assert(t[0] != "GamepadAxisPos("@[0]);
            assert(t[0] != "GamepadAxisNeg("@[0]);
            assert(t[0] != "GamepadAxis("@[0]);
            assert(t[0] != "GamepadButton("@[0]);
            assert(t[5] != "MouseButton("@[5]);
            assert(t[0] != "Key("@[0]);
            assert(t[0] != "Unbound"@[0]);
        },
        Binding::MouseMoveY => {
            let t = b.name_str();
            assert(t == "MouseMoveY"@);
            assert(t[0] != "GamepadAxisPos("@[0]);
            assert(t[0] != "GamepadAxisNeg("@[0]);
            assert(t[0] != "GamepadAxis("@[0]);
            assert(t[0] != "GamepadButton("@[0]);
            assert(t[5] != "MouseButton("@[5]);
            assert(t[0] != "Key("@[0]);
            assert(t[0] != "Unbound"@[0]);
            assert(t[9] != "MouseMoveX"@[9]);
        },
        Binding::MouseMovePosX => {
            let t = b.name_str();
            assert(t == "MouseMovePosX"@);
            assert(t[0] != "GamepadAxisPos("@[0]);
            assert(t[0] != "GamepadAxisNeg("@[0]);
            assert(t[0] != "GamepadAxis("@[0]);
            assert(t[0] != "GamepadButton("@[0]);
            assert(t[5] != "MouseButton("@[5]);
            assert(t[0] != "Key("@[0]);
            assert(t[0] != "Unbound"@[0]);
            assert(t[9] != "MouseMoveX"@[9]);
            assert(t[9] != "MouseMoveY"@[9]);
        },
        Binding::MouseMovePosY => {
            let t = b.name_str();
            assert(t == "MouseMovePosY"@);
            assert(t[0] != "GamepadAxisPos("@[0]);
            assert(t[0] != "GamepadAxisNeg("@[0]);
            assert(t[0] != "GamepadAxis("@[0]);
            assert(t[0] != "GamepadButton("@[0]);
            assert(t[5] != "MouseButton("@[5]);
            assert(t[0] != "Key("@[0]);
            assert(t[0] != "Unbound"@[0]);
            assert(t[9] != "MouseMoveX"@[9]);
            assert(t[9] != "MouseMoveY"@[9]);
            assert(t[12] != "MouseMovePosX"@[12]);
        },
        Binding::MouseMoveNegX => {
            let t = b.name_str();
            assert(t == "MouseMoveNegX"@);
            assert(t[0] != "GamepadAxisPos("@[0]);
            assert(t[0] != "GamepadAxisNeg("@[0]);
            assert(t[0] != "GamepadAxis("@[0]);
            assert(t[0] != "GamepadButton("@[0]);
            assert(t[5] != "MouseButton("@[5]);
            assert(t[0] != "Key("@[0]);
            assert(t[0] != "Unbound"@[0]);
            assert(t[9] != "MouseMoveX"@[9]);
            assert(t[9] != "MouseMoveY"@[9]);
            assert(t[9] != "MouseMovePosX"@[9]);
            assert(t[9] != "MouseMovePosY"@[9]);
        },
        Binding::MouseMoveNegY => {
            let t = b.name_str();
            assert(t == "MouseMoveNegY"@);
            assert(t[0] != "GamepadAxisPos("@[0]);
            assert(t[0] != "GamepadAxisNeg("@[0]);
            assert(t[0] != "GamepadAxis("@[0]);
            assert(t[0] != "GamepadButton("@[0]);
            assert(t[5] != "MouseButton("@[5]);
            assert(t[0] != "Key("@[0]);
            assert(t[0] != "Unbound"@[0]);
            assert(t[9] != "MouseMoveX"@[9]);
            assert(t[9] != "MouseMoveY"@[9]);
            assert(t[9] != "MouseMovePosX"@[9]);
            assert(t[9] != "MouseMovePosY"@[9]);
            assert(t[12] != "MouseMoveNegX"@[12]);
        },
        Binding::MouseScrollPixelX => {
            let t = b.name_str();
            assert(t == "MouseScrollX"@);
            assert(t[0] != "GamepadAxisPos("@[0]);
            assert(t[0] != "GamepadAxisNeg("@[0]);
            assert(t[0] != "GamepadAxis("@[0]);
            assert(t[0] != "GamepadButton("@[0]);
            assert(t[5] != "MouseButton("@[5]);
            assert(t[0] != "Key("@[0]);
            assert(t[0] != "Unbound"@[0]);
            assert(t[5] != "MouseMoveX"@[5]);
            assert(t[5] != "MouseMoveY"@[5]);
            assert(t[5] != "MouseMovePosX"@[5]);
            assert(t[5] != "MouseMovePosY"@[5]);
            assert(t[5] != "MouseMoveNegX"@[5]);
            assert(t[5] != "MouseMoveNegY"@[5]);
        },
        Binding::MouseScrollPixelY => {
            let t = b.name_str();
            assert(t == "MouseScrollY"@);
            assert(t[0] != "GamepadAxisPos("@[0]);
            assert(t[0] != "GamepadAxisNeg("@[0]);
            assert(t[0] != "GamepadAxis("@[0]);
            assert(t[0] != "GamepadButton("@[0]);
            assert(t[5] != "MouseButton("@[5]);
            assert(t[0] != "Key("@[0]);
            assert(t[0] != "Unbound"@[0]);
            assert(t[5] != "MouseMoveX"@[5]);
            assert(t[5] != "MouseMoveY"@[5]);
            assert(t[5] != "MouseMovePosX"@[5]);
            assert(t[5] != "MouseMovePosY"@[5]);
            assert(t[5] != "MouseMoveNegX"@[5]);
            assert(t[5] != "MouseMoveNegY"@[5]);
            assert(t[11] != "MouseScrollX"@[11]);
        },
        Binding::MouseScrollPixelPosX => {
            let t = b.name_str();
            assert(t == "MouseScrollPosX"@);
            assert(t[0] != "GamepadAxisPos("@[0]);
            assert(t[0] != "GamepadAxisNeg("@[0]);
            assert(t[0] != "GamepadAxis("@[0]);
            assert(t[0] != "GamepadButton("@[0]);
            assert(t[5] != "MouseButton("@[5]);
            assert(t[0] != "Key("@[0]);
            assert(t[0] != "Unbound"@[0]);
            assert(t[5] != "MouseMoveX"@[5]);
            assert(t[5] != "MouseMoveY"@[5]);
            assert(t[5] != "MouseMovePosX"@[5]);
            assert(t[5] != "MouseMovePosY"@[5]);
            assert(t[5] != "MouseMoveNegX"@[5]);
            assert(t[5] != "MouseMoveNegY"@[5]);
            assert(t[11] != "MouseScrollX"@[11]);
            assert(t[11] != "MouseScrollY"@[11]);
        },
        Binding::MouseScrollPixelPosY => {
            let t = b.name_str();
            assert(t == "MouseScrollPosY"@);
            assert(t[0] != "GamepadAxisPos("@[0]);
            assert(t[0] != "GamepadAxisNeg("@[0]);
            assert(t[0] != "GamepadAxis("@[0]);
            assert(t[0] != "GamepadButton("@[0]);
            assert(t[5] != "MouseButton("@[5]);
            assert(t[0] != "Key("@[0]);
            assert(t[0] != "Unbound"@[0]);
            assert(t[5] != "MouseMoveX"@[5]);
            assert(t[5] != "MouseMoveY"@[5]);
            assert(t[5] != "MouseMovePosX"@[5]);
            assert(t[5] != "MouseMovePosY"@[5]);
            assert(t[5] != "MouseMoveNegX"@[5]);
            assert(t[5] != "MouseMoveNegY"@[5]);
            assert(t[11] != "MouseScrollX"@[11]);
            assert(t[11] != "MouseScrollY"@[11]);
            assert(t[14] != "MouseScrollPosX"@[14]);
        },
        Binding::MouseScrollPixelNegX => {
            let t = b.name_str();
            assert(t == "MouseScrollNegX"@);
            assert(t[0] != "GamepadAxisPos("@[0]);
            assert(t[0] != "GamepadAxisNeg("@[0]);
            assert(t[0] != "GamepadAxis("@[0]);
            assert(t[0] != "GamepadButton("@[0]);
            assert(t[5] != "MouseButton("@[5]);
            assert(t[0] != "Key("@[0]);
            assert(t[0] != "Unbound"@[0]);
            assert(t[5] != "MouseMoveX"@[5]);
            assert(t[5] != "MouseMoveY"@[5]);
            assert(t[5] != "MouseMovePosX"@[5]);
            assert(t[5] != "MouseMovePosY"@[5]);
            assert(t[5] != "MouseMoveNegX"@[5]);
            assert(t[5] != "MouseMoveNegY"@[5]);
            assert(t[11] != "MouseScrollX"@[11]);
            assert(t[11] != "MouseScrollY"@[11]);
            assert(t[11] != "MouseScrollPosX"@[11]);
            assert(t[11] != "MouseScrollPosY"@[11]);
        },
        Binding::MouseScrollPixelNegY => {
            let t = b.name_str();
            assert(t == "MouseScrollNegY"@);
            assert(t[0] != "GamepadAxisPos("@[0]);
            assert(t[0] != "GamepadAxisNeg("@[0]);
            assert(t[0] != "GamepadAxis("@[0]);
            assert(t[0] != "GamepadButton("@[0]);
            assert(t[5] != "MouseButton("@[5]);
            assert(t[0] != "Key("@[0]);
            assert(t[0] != "Unbound"@[0]);
            assert(t[5] != "MouseMoveX"@[5]);
            assert(t[5] != "MouseMoveY"@[5]);
            assert(t[5] != "MouseMovePosX"@[5]);
            assert(t[5] != "MouseMovePosY"@[5]);
            assert(t[5] != "MouseMoveNegX"@[5]);
            assert(t[5] != "MouseMoveNegY"@[5]);
            assert(t[11] != "MouseScrollX"@[11]);
            assert(t[11] != "MouseScrollY"@[11]);
            assert(t[11] != "MouseScrollPosX"@[11]);
            assert(t[11] != "MouseScrollPosY"@[11]);
            assert(t[14] != "MouseScrollNegX"@[14]);
        },
        Binding::MouseScrollLineX => {
            let t = b.name_str();
            assert(t == "MouseScrollLineX"@);
            assert(t[0] != "GamepadAxisPos("@[0]);
            assert(t[0] != "GamepadAxisNeg("@[0]);
            assert(t[0] != "GamepadAxis("@[0]);
            assert(t[0] != "GamepadButton("@[0]);
            assert(t[5] != "MouseButton("@[5]);
            assert(t[0] != "Key("@[0]);
            assert(t[0] != "Unbound"@[0]);
            assert(t[5] != "MouseMoveX"@[5]);
            assert(t[5] != "MouseMoveY"@[5]);
            assert(t[5] != "MouseMovePosX"@[5]);
            assert(t[5] != "MouseMovePosY"@[5]);
            assert(t[5] != "MouseMoveNegX"@[5]);
            assert(t[5] != "MouseMoveNegY"@[5]);
            assert(t[11] != "MouseScrollX"@[11]);
            assert(t[11] != "MouseScrollY"@[11]);
            assert(t[11] != "MouseScrollPosX"@[11]);
            assert(t[11] != "MouseScrollPosY"@[11]);
            assert(t[11] != "MouseScrollNegX"@[11]);
            assert(t[11] != "MouseScrollNegY"@[11]);
        },
        Binding::MouseScrollLineY => {
            let t = b.name_str();
            assert(t == "MouseScrollLineY"@);
            assert(t[0] != "GamepadAxisPos("@[0]);
            assert(t[0] != "GamepadAxisNeg("@[0]);
            assert(t[0] != "GamepadAxis("@[0]);
            assert(t[0] != "GamepadButton("@[0]);
            assert(t[5] != "MouseButton("@[5]);
            assert(t[0] != "Key("@[0]);
            assert(t[0] != "Unbound"@[0]);
            assert(t[5] != "MouseMoveX"@[5]);
            assert(t[5] != "MouseMoveY"@[5]);
            assert(t[5] != "MouseMovePosX"@[5]);
            assert(t[5] != "MouseMovePosY"@[5]);
            assert(t[5] != "MouseMoveNegX"@[5]);
            assert(t[5] != "MouseMoveNegY"@[5]);
            assert(t[11] != "MouseScrollX"@[11]);
            assert(t[11] != "MouseScrollY"@[11]);
            assert(t[11] != "MouseScrollPosX"@[11]);
            assert(t[11] != "MouseScrollPosY"@[11]);
            assert(t[11] != "MouseScrollNegX"@[11]);
            assert(t[11] != "MouseScrollNegY"@[11]);
            assert(t[15] != "MouseScrollLineX"@[15]);
        },
        Binding::MouseScrollLinePosX => {
            let t = b.name_str();
            assert(t == "MouseScrollLinePosX"@);
            assert(t[0] != "GamepadAxisPos("@[0]);
            assert(t[0] != "GamepadAxisNeg("@[0]);
            assert(t[0] != "GamepadAxis("@[0]);
            assert(t[0] != "GamepadButton("@[0]);
            assert(t[5] != "MouseButton("@[5]);
            assert(t[0] != "Key("@[0]);
            assert(t[0] != "Unbound"@[0]);
            assert(t[5] != "MouseMoveX"@[5]);
            assert(t[5] != "MouseMoveY"@[5]);
            assert(t[5] != "MouseMovePosX"@[5]);
            assert(t[5] != "MouseMovePosY"@[5]);
            assert(t[5] != "MouseMoveNegX"@[5]);
            assert(t[5] != "MouseMoveNegY"@[5]);
            assert(t[11] != "MouseScrollX"@[11]);
            assert(t[11] != "MouseScrollY"@[11]);
            assert(t[11] != "MouseScrollPosX"@[11]);
            assert(t[11] != "MouseScrollPosY"@[11]);
            assert(t[11] != "MouseScrollNegX"@[11]);
            assert(t[11] != "MouseScrollNegY"@[11]);
            assert(t[15] != "MouseScrollLineX"@[15]);
            assert(t[15] != "MouseScrollLineY"@[15]);
        },
        Binding::MouseScrollLinePosY => {
            let t = b.name_str();
            assert(t == "MouseScrollLinePosY"@);
            assert(t[0] != "GamepadAxisPos("@[0]);
            assert(t[0] != "GamepadAxisNeg("@[0]);
            assert(t[0] != "GamepadAxis("@[0]);
            assert(t[0] != "GamepadButton("@[0]);
            assert(t[5] != "MouseButton("@[5]);
            assert(t[0] != "Key("@[0]);
            assert(t[0] != "Unbound"@[0]);
            assert(t[5] != "MouseMoveX"@[5]);
            assert(t[5] != "MouseMoveY"@[5]);
            assert(t[5] != "MouseMovePosX"@[5]);
            assert(t[5] != "MouseMovePosY"@[5]);
            assert(t[5] != "MouseMoveNegX"@[5]);
            assert(t[5] != "MouseMoveNegY"@[5]);
            assert(t[11] != "MouseScrollX"@[11]);
            assert(t[11] != "MouseScrollY"@[11]);
            assert(t[11] != "MouseScrollPosX"@[11]);
            assert(t[11] != "MouseScrollPosY"@[11]);
            assert(t[11] != "MouseScrollNegX"@[11]);
            assert(t[11] != "MouseScrollNegY"@[11]);
            assert(t[15] != "MouseScrollLineX"@[15]);
            assert(t[15] != "MouseScrollLineY"@[15]);
            assert(t[18] != "MouseScrollLinePosX"@[18]);
        },
        Binding::MouseScrollLineNegX => {
            let t = b.name_str();
            assert(t == "MouseScrollLineNegX"@);
            assert(t[0] != "GamepadAxisPos("@[0]);
            assert(t[0] != "GamepadAxisNeg("@[0]);
            assert(t[0] != "GamepadAxis("@[0]);
            assert(t[0] != "GamepadButton("@[0]);
            assert(t[5] != "MouseButton("@[5]);
            assert(t[0] != "Key("@[0]);
            assert(t[0] != "Unbound"@[0]);
            assert(t[5] != "MouseMoveX"@[5]);
            assert(t[5] != "MouseMoveY"@[5]);
            assert(t[5] != "MouseMovePosX"@[5]);
            assert(t[5] != "MouseMovePosY"@[5]);
            assert(t[5] != "MouseMoveNegX"@[5]);
            assert(t[5] != "MouseMoveNegY"@[5]);
            assert(t[11] != "MouseScrollX"@[11]);
            assert(t[11] != "MouseScrollY"@[11]);
            assert(t[11] != "MouseScrollPosX"@[11]);
            assert(t[11] != "MouseScrollPosY"@[11]);
            assert(t[11] != "MouseScrollNegX"@[11]);
            assert(t[11] != "MouseScrollNegY"@[11]);
            assert(t[15] != "MouseScrollLineX"@[15]);
            assert(t[15] != "MouseScrollLineY"@[15]);
            assert(t[15] != "MouseScrollLinePosX"@[15]);
            assert(t[15] != "MouseScrollLinePosY"@[15]);
        },
        Binding::MouseScrollLineNegY => {
            let t = b.name_str();
            assert(t == "MouseScrollLineNegY"@);
            assert(t[0] != "GamepadAxisPos("@[0]);
            assert(t[0] != "GamepadAxisNeg("@[0]);
            assert(t[0] != "GamepadAxis("@[0]);
            assert(t[0] != "GamepadButton("@[0]);
            assert(t[5] != "MouseButton("@[5]);
            assert(t[0] != "Key("@[0]);
            assert(t[0] != "Unbound"@[0]);
            assert(t[5] != "MouseMoveX"@[5]);
            assert(t[5] != "MouseMoveY"@[5]);
            assert(t[5] != "MouseMovePosX"@[5]);
            assert(t[5] != "MouseMovePosY"@[5]);
            assert(t[5] != "MouseMoveNegX"@[5]);
            assert(t[5] != "MouseMoveNegY"@[5]);
            assert(t[11] != "MouseScrollX"@[11]);
            assert(t[11] != "MouseScrollY"@[11]);
            assert(t[11] != "MouseScrollPosX"@[11]);
            assert(t[11] != "MouseScrollPosY"@[11]);
            assert(t[11] != "MouseScrollNegX"@[11]);
            assert(t[11] != "MouseScrollNegY"@[11]);
            assert(t[15] != "MouseScrollLineX"@[15]);
            assert(t[15] != "MouseScrollLineY"@[15]);
            assert(t[15] != "MouseScrollLinePosX"@[15]);
            assert(t[15] != "MouseScrollLinePosY"@[15]);
            assert(t[18] != "MouseScrollLineNegX"@[18]);
        },
    }
}


} // verus!
