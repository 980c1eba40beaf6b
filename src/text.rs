use crate::decimal::{
    all_digits, decimal_text, decimal_value, is_u16_text, lemma_decimal_text_value, parse_u16,
    u16_to_decimal,
};
use crate::version::Version;
use vstd::prelude::*;

verus! {

/// Why a text is not a version. Parsing tells no more than that it failed.
#[derive(Debug, Clone, Copy, PartialEq, Eq, Structural)]
pub enum ParseError {
    InvalidFormat,
}

/// The pieces of `s` between its dots, in order: one more piece than there
/// are dots, and an empty piece wherever two dots meet or a dot starts or ends
/// `s`.
pub open spec fn split_dots(s: Seq<char>) -> Seq<Seq<char>>
    decreases s.len(),
{
    if s.len() == 0 {
        seq![Seq::<char>::empty()]
    } else {
        let front = split_dots(s.drop_last());
        if s.last() == '.' {
            front.push(Seq::<char>::empty())
        } else {
            front.update(front.len() - 1, front.last().push(s.last()))
        }
    }
}

/// `s` is the text of a version: exactly four pieces between dots, each the
/// decimal form of a 16-bit unsigned integer.
pub open spec fn is_version_text(s: Seq<char>) -> bool {
    let pieces = split_dots(s);
    &&& pieces.len() == 4
    &&& forall|j: int| 0 <= j < 4 ==> is_u16_text(#[trigger] pieces[j])
}

/// The version that a version text writes, fields in the order global,
/// major, minor, patch.
pub open spec fn version_of_text(s: Seq<char>) -> Version {
    let pieces = split_dots(s);
    Version {
        global: decimal_value(pieces[0]) as u16,
        major: decimal_value(pieces[1]) as u16,
        minor: decimal_value(pieces[2]) as u16,
        patch: decimal_value(pieces[3]) as u16,
    }
}

/// `global.major.minor.patch`, each field in its shortest decimal form.
pub open spec fn text_of_version(v: Version) -> Seq<char> {
    decimal_text(v.global as nat) + seq!['.'] + decimal_text(v.major as nat) + seq!['.']
        + decimal_text(v.minor as nat) + seq!['.'] + decimal_text(v.patch as nat)
}

/// What `parse` gives for the text `s`.
pub open spec fn parse_result(s: Seq<char>) -> Result<Version, ParseError> {
    if is_version_text(s) {
        Ok(version_of_text(s))
    } else {
        Err(ParseError::InvalidFormat)
    }
}

/// The views of a sequence of character vectors.
pub open spec fn views(pieces: Seq<Vec<char>>) -> Seq<Seq<char>> {
    pieces.map_values(|p: Vec<char>| p@)
}

/// Cuts `s` at its dots.
fn split_on_dots(s: &str) -> (r: Vec<Vec<char>>)
    ensures
        views(r@) == split_dots(s@),
{
    let mut done: Vec<Vec<char>> = Vec::new();
    let mut piece: Vec<char> = Vec::new();
    for c in it: s.chars()
        invariant
            it.seq() == s@,
            split_dots(s@.take(it.index() as int)) == views(done@).push(piece@),
    {
        let ghost i = it.index() as int;
        proof {
            assert(s@.take(i + 1).drop_last() =~= s@.take(i));
            assert(s@.take(i + 1).last() == c);
        }
        if c == '.' {
            let ghost before = done@;
            done.push(piece);
            piece = Vec::new();
            proof {
                assert(views(done@) =~= views(before).push(split_dots(s@.take(i)).last()));
                assert(split_dots(s@.take(i + 1)) =~= views(done@).push(piece@));
            }
        } else {
            piece.push(c);
            proof {
                assert(split_dots(s@.take(i + 1)) =~= views(done@).push(piece@));
            }
        }
    }
    proof {
        assert(s@.take(s@.len() as int) =~= s@);
    }
    let ghost before = done@;
    done.push(piece);
    proof {
        assert(views(done@) =~= views(before).push(piece@));
    }
    done
}

impl Version {
    /// Reads a version from `global.major.minor.patch`: exactly four pieces
    /// between dots, each one or more decimal digits of value at most 65535
    /// (leading zeros allowed). Any other text, among them one with a fifth
    /// piece, is refused with [`ParseError::InvalidFormat`].
    pub fn parse(s: &str) -> (r: Result<Version, ParseError>)
        ensures
            r == parse_result(s@),
    {
        let pieces = split_on_dots(s);
        proof {
            assert(forall|j: int| 0 <= j < pieces@.len() ==> #[trigger] pieces@[j]@ == split_dots(s@)[j]);
        }
        if pieces.len() != 4 {
            return Err(ParseError::InvalidFormat);
        }
        let global = match parse_u16(&pieces[0]) {
            Some(n) => n,
            None => return Err(ParseError::InvalidFormat),
        };
        let major = match parse_u16(&pieces[1]) {
            Some(n) => n,
            None => return Err(ParseError::InvalidFormat),
        };
        let minor = match parse_u16(&pieces[2]) {
            Some(n) => n,
            None => return Err(ParseError::InvalidFormat),
        };
        let patch = match parse_u16(&pieces[3]) {
            Some(n) => n,
            None => return Err(ParseError::InvalidFormat),
        };
        Ok(Version::new(global, major, minor, patch))
    }
}

impl Version {
    /// Whether `s` is the text of a version, that is whether [`Version::parse`]
    /// accepts it: exactly four pieces between dots, each the decimal form of
    /// a 16-bit unsigned integer.
    pub fn is_valid(s: &str) -> (r: bool)
        ensures
            r == is_version_text(s@),
    {
        match Version::parse(s) {
            Ok(_) => true,
            Err(_) => false,
        }
    }

    /// Writes the version as `global.major.minor.patch`, each field in
    /// decimal without leading zeros.
    pub fn to_string(&self) -> (r: String)
        ensures
            r@ == text_of_version(*self),
    {
        let dot = ".";
        proof {
            reveal_strlit(".");
        }
        let mut r = u16_to_decimal(self.global);
        r.append(dot);
        let major = u16_to_decimal(self.major);
        r.append(major.as_str());
        r.append(dot);
        let minor = u16_to_decimal(self.minor);
        r.append(minor.as_str());
        r.append(dot);
        let patch = u16_to_decimal(self.patch);
        r.append(patch.as_str());
        r
    }
}

impl std::str::FromStr for Version {
    type Err = ParseError;

    /// Reads a version exactly as [`Version::parse`] does.
    fn from_str(s: &str) -> (r: Result<Version, ParseError>)
        ensures
            r == parse_result(s@),
    {
        Version::parse(s)
    }
}

/// Parsing what `to_string` wrote gives back the version that was written.
pub proof fn lemma_parse_after_format(v: Version)
    ensures
        is_version_text(text_of_version(v)),
        parse_result(text_of_version(v)) == Ok::<Version, ParseError>(v),
{
    let g = decimal_text(v.global as nat);
    let ma = decimal_text(v.major as nat);
    let mi = decimal_text(v.minor as nat);
    let p = decimal_text(v.patch as nat);
    lemma_decimal_text_value(v.global as nat);
    lemma_decimal_text_value(v.major as nat);
    lemma_decimal_text_value(v.minor as nat);
    lemma_decimal_text_value(v.patch as nat);
    lemma_split_digits(g);
    lemma_split_digits(ma);
    lemma_split_digits(mi);
    lemma_split_digits(p);
    let x1 = g + seq!['.'] + ma;
    let x2 = x1 + seq!['.'] + mi;
    lemma_split_joined(g, ma);
    lemma_split_joined(x1, mi);
    lemma_split_joined(x2, p);
    let pieces = split_dots(text_of_version(v));
    assert(pieces =~= seq![g, ma, mi, p]);
}

/// A piece with no dot in it is not cut.
proof fn lemma_split_digits(t: Seq<char>)
    requires
        all_digits(t),
    ensures
        split_dots(t) == seq![t],
    decreases t.len(),
{
    if t.len() > 0 {
        lemma_split_digits(t.drop_last());
        assert(t.drop_last().push(t.last()) =~= t);
        assert(split_dots(t) =~= seq![t]);
    } else {
        assert(t =~= Seq::<char>::empty());
    }
}

/// There is always at least one piece.
proof fn lemma_split_not_empty(s: Seq<char>)
    ensures
        split_dots(s).len() >= 1,
    decreases s.len(),
{
    if s.len() > 0 {
        lemma_split_not_empty(s.drop_last());
    }
}

/// Joining two texts with a dot joins their pieces.
proof fn lemma_split_joined(x: Seq<char>, y: Seq<char>)
    ensures
        split_dots(x + seq!['.'] + y) == split_dots(x) + split_dots(y),
    decreases y.len(),
{
    let xy = x + seq!['.'] + y;
    if y.len() == 0 {
        assert(xy.drop_last() =~= x);
        assert(split_dots(y) =~= seq![Seq::<char>::empty()]);
        assert(split_dots(xy) =~= split_dots(x) + split_dots(y));
    } else {
        lemma_split_joined(x, y.drop_last());
        lemma_split_not_empty(y.drop_last());
        assert(xy.drop_last() =~= x + seq!['.'] + y.drop_last());
        assert(xy.last() == y.last());
        assert(split_dots(xy) =~= split_dots(x) + split_dots(y));
    }
}

} // verus!
