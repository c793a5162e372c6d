use crate::error::{result_view, ParseError, SpecParseError};
use vstd::prelude::*;

verus! {

/// Byte order of a multi-byte integer.
#[derive(Debug, Clone, Copy, PartialEq, Eq, Structural)]
pub enum Endian {
    Little,
    Big,
}

/// Width and signedness of an integer wider than one byte.
#[derive(Debug, Clone, Copy, PartialEq, Eq, Structural)]
pub enum LongType {
    U2,
    U4,
    U8,
    S2,
    S4,
    S8,
}

/// A fixed-width integer type. Single-byte types carry no byte order; wider
/// ones may leave it to the reader's default.
#[derive(Debug, Clone, Copy, PartialEq, Eq, Structural)]
pub enum Integer {
    U1,
    S1,
    Long { type_: LongType, endian: Option<Endian> },
}

impl View for Integer {
    type V = Integer;

    open spec fn view(&self) -> Integer {
        *self
    }
}

impl LongType {
    pub open spec fn width(self) -> nat {
        match self {
            LongType::U2 | LongType::S2 => 2,
            LongType::U4 | LongType::S4 => 4,
            LongType::U8 | LongType::S8 => 8,
        }
    }

    pub open spec fn is_signed(self) -> bool {
        self is S2 || self is S4 || self is S8
    }
}

impl Integer {
    /// Width in bytes.
    pub open spec fn width(self) -> nat {
        match self {
            Integer::U1 | Integer::S1 => 1,
            Integer::Long { type_, .. } => type_.width(),
        }
    }

    pub open spec fn is_signed(self) -> bool {
        match self {
            Integer::U1 => false,
            Integer::S1 => true,
            Integer::Long { type_, .. } => type_.is_signed(),
        }
    }

    /// Explicit byte order, if any.
    pub open spec fn endian(self) -> Option<Endian> {
        match self {
            Integer::U1 | Integer::S1 => None,
            Integer::Long { endian, .. } => endian,
        }
    }
}

/// The signedness character of a token: `u` or `s`.
pub open spec fn sign_char(signed: bool) -> char {
    if signed {
        's'
    } else {
        'u'
    }
}

/// The width digit of a token.
pub open spec fn width_char(width: nat) -> char {
    if width == 1 {
        '1'
    } else if width == 2 {
        '2'
    } else if width == 4 {
        '4'
    } else {
        '8'
    }
}

/// The multi-byte integer named by a signedness character and a width digit.
pub open spec fn long_type_of(sign: char, width: char) -> Option<LongType> {
    if sign == 'u' {
        if width == '2' {
            Some(LongType::U2)
        } else if width == '4' {
            Some(LongType::U4)
        } else if width == '8' {
            Some(LongType::U8)
        } else {
            None
        }
    } else if sign == 's' {
        if width == '2' {
            Some(LongType::S2)
        } else if width == '4' {
            Some(LongType::S4)
        } else if width == '8' {
            Some(LongType::S8)
        } else {
            None
        }
    } else {
        None
    }
}

/// The byte order named by a two-character suffix.
pub open spec fn endian_of(a: char, b: char) -> Option<Endian> {
    if a == 'l' && b == 'e' {
        Some(Endian::Little)
    } else if a == 'b' && b == 'e' {
        Some(Endian::Big)
    } else {
        None
    }
}

/// The integer type that a token names: `u1`, `s1`, `{u,s}{2,4,8}`, or
/// `{u,s}{2,4,8}{le,be}`; `None` for every other token.
pub open spec fn integer_of_token(t: Seq<char>) -> Option<Integer> {
    if t.len() == 2 {
        if t[0] == 'u' && t[1] == '1' {
            Some(Integer::U1)
        } else if t[0] == 's' && t[1] == '1' {
            Some(Integer::S1)
        } else {
            match long_type_of(t[0], t[1]) {
                Some(l) => Some(Integer::Long { type_: l, endian: None }),
                None => None,
            }
        }
    } else if t.len() == 4 {
        match (long_type_of(t[0], t[1]), endian_of(t[2], t[3])) {
            (Some(l), Some(e)) => Some(Integer::Long { type_: l, endian: Some(e) }),
            _ => None,
        }
    } else {
        None
    }
}

/// The token that names an integer type.
pub open spec fn token_of(i: Integer) -> Seq<char> {
    let core = seq![sign_char(i.is_signed()), width_char(i.width())];
    match i.endian() {
        None => core,
        Some(Endian::Little) => core + seq!['l', 'e'],
        Some(Endian::Big) => core + seq!['b', 'e'],
    }
}

/// Decoding of a type token, with the error for a token outside the grammar.
pub open spec fn decode_type(t: Seq<char>) -> Result<Integer, SpecParseError> {
    match integer_of_token(t) {
        Some(i) => Ok(i),
        None => Err(SpecParseError::InvalidType(t)),
    }
}

fn long_type(sign: char, width: char) -> (r: Option<LongType>)
    ensures
        r == long_type_of(sign, width),
{
    match (sign, width) {
        ('u', '2') => Some(LongType::U2),
        ('u', '4') => Some(LongType::U4),
        ('u', '8') => Some(LongType::U8),
        ('s', '2') => Some(LongType::S2),
        ('s', '4') => Some(LongType::S4),
        ('s', '8') => Some(LongType::S8),
        _ => None,
    }
}

/// Decodes a type token such as `u1`, `s4` or `u2le` into an integer type.
/// Tokens are matched literally: no case folding.
pub fn type_parse(token: &str) -> (r: Result<Integer, ParseError>)
    ensures
        result_view(r) == decode_type(token@),
{
    let n = token.unicode_len();
    if n != 2 && n != 4 {
        return Err(ParseError::InvalidType(token.to_owned()));
    }
    let sign = token.get_char(0);
    let width = token.get_char(1);
    if n == 2 {
        if sign == 'u' && width == '1' {
            return Ok(Integer::U1);
        }
        if sign == 's' && width == '1' {
            return Ok(Integer::S1);
        }
        match long_type(sign, width) {
            Some(l) => Ok(Integer::Long { type_: l, endian: None }),
            None => Err(ParseError::InvalidType(token.to_owned())),
        }
    } else {
        let a = token.get_char(2);
        let b = token.get_char(3);
        let endian = if a == 'l' && b == 'e' {
            Some(Endian::Little)
        } else if a == 'b' && b == 'e' {
            Some(Endian::Big)
        } else {
            None
        };
        match (long_type(sign, width), endian) {
            (Some(l), Some(e)) => Ok(Integer::Long { type_: l, endian: Some(e) }),
            _ => Err(ParseError::InvalidType(token.to_owned())),
        }
    }
}

impl Integer {
    /// The token that names this type: the inverse of [`type_parse`].
    pub fn token(&self) -> (r: String)
        ensures
            r@ == token_of(*self),
    {
        match self {
            Integer::U1 => {
                proof {
                    reveal_strlit("u1");
                }
                "u1".to_owned()
            },
            Integer::S1 => {
                proof {
                    reveal_strlit("s1");
                }
                "s1".to_owned()
            },
            Integer::Long { type_, endian } => {
                let mut t = match type_ {
                    LongType::U2 => {
                        proof {
                            reveal_strlit("u2");
                        }
                        "u2".to_owned()
                    },
                    LongType::U4 => {
                        proof {
                            reveal_strlit("u4");
                        }
                        "u4".to_owned()
                    },
                    LongType::U8 => {
                        proof {
                            reveal_strlit("u8");
                        }
                        "u8".to_owned()
                    },
                    LongType::S2 => {
                        proof {
                            reveal_strlit("s2");
                        }
                        "s2".to_owned()
                    },
                    LongType::S4 => {
                        proof {
                            reveal_strlit("s4");
                        }
                        "s4".to_owned()
                    },
                    LongType::S8 => {
                        proof {
                            reveal_strlit("s8");
                        }
                        "s8".to_owned()
                    },
                };
                match endian {
                    None => {},
                    Some(Endian::Little) => {
                        proof {
                            reveal_strlit("le");
                        }
                        t.append("le");
                    },
                    Some(Endian::Big) => {
                        proof {
                            reveal_strlit("be");
                        }
                        t.append("be");
                    },
                }
                assert(t@ =~= token_of(*self));
                t
            },
        }
    }
}

/// Every two-character token `{u,s}{1,2,4,8}` decodes, to a type without
/// explicit byte order whose signedness and width are the token's characters.
pub proof fn lemma_two_char_tokens(sign: char, width: char)
    requires
        sign == 'u' || sign == 's',
        width == '1' || width == '2' || width == '4' || width == '8',
    ensures
        decode_type(seq![sign, width]) matches Ok(i) && {
            &&& i.endian() is None
            &&& sign_char(i.is_signed()) == sign
            &&& width_char(i.width()) == width
            &&& token_of(i) == seq![sign, width]
        },
{
    let t = seq![sign, width];
    assert(t[0] == sign && t[1] == width);
}

/// Every four-character token `{u,s}{2,4,8}{le,be}` decodes, with the byte
/// order of its suffix; a single-byte core with any suffix never decodes.
pub proof fn lemma_four_char_tokens(sign: char, width: char, a: char, b: char)
    requires
        sign == 'u' || sign == 's',
        width == '1' || width == '2' || width == '4' || width == '8',
        (a == 'l' || a == 'b') && b == 'e',
    ensures
        width == '1' ==> decode_type(seq![sign, width, a, b]) is Err,
        width != '1' ==> (decode_type(seq![sign, width, a, b]) matches Ok(i) && {
            &&& i.endian() == Some(if a == 'l' { Endian::Little } else { Endian::Big })
            &&& sign_char(i.is_signed()) == sign
            &&& width_char(i.width()) == width
            &&& token_of(i) == seq![sign, width, a, b]
        }),
{
    let t = seq![sign, width, a, b];
    assert(t[0] == sign && t[1] == width && t[2] == a && t[3] == b);
    if width != '1' {
        let i = integer_of_token(t).unwrap();
        assert(token_of(i) =~= t);
    }
}

/// A token whose length is neither 2 nor 4, or a four-character token whose
/// suffix is neither `le` nor `be`, fails with `InvalidType`.
pub proof fn lemma_invalid_tokens(t: Seq<char>)
    requires
        (t.len() != 2 && t.len() != 4) || (t.len() == 4 && t.subrange(2, 4) != seq!['l', 'e']
            && t.subrange(2, 4) != seq!['b', 'e']),
    ensures
        decode_type(t) == Err::<Integer, SpecParseError>(SpecParseError::InvalidType(t)),
{
    if t.len() == 4 {
        if t[2] == 'l' && t[3] == 'e' {
            assert(t.subrange(2, 4) =~= seq!['l', 'e']);
        }
        if t[2] == 'b' && t[3] == 'e' {
            assert(t.subrange(2, 4) =~= seq!['b', 'e']);
        }
    }
}

/// Decoding and naming are inverse: each type has exactly one token.
pub proof fn lemma_token_round_trip(t: Seq<char>, i: Integer)
    ensures
        integer_of_token(token_of(i)) == Some(i),
        integer_of_token(t) == Some(i) ==> token_of(i) == t,
{
    let k = token_of(i);
    assert(k[0] == sign_char(i.is_signed()) && k[1] == width_char(i.width()));
    match i.endian() {
        Some(Endian::Little) => assert(k[2] == 'l' && k[3] == 'e'),
        Some(Endian::Big) => assert(k[2] == 'b' && k[3] == 'e'),
        None => {},
    }
    if integer_of_token(t) == Some(i) {
        assert(token_of(i) =~= t);
    }
}

} // verus!
