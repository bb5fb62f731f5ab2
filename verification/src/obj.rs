use vstd::prelude::*;

use crate::triangle::Face;

verus! {

// ---------------------------------------------------------------------------
// Splitting on a separator byte
// ---------------------------------------------------------------------------

/// The pieces of `s` between occurrences of `sep`, in order: one more piece
/// than there are separators, empty pieces included, as `str::split` yields
/// them.
pub open spec fn split_on(s: Seq<u8>, sep: u8) -> Seq<Seq<u8>>
    decreases s.len(),
{
    if s.len() == 0 {
        seq![Seq::empty()]
    } else if s[0] == sep {
        seq![Seq::empty()] + split_on(s.drop_first(), sep)
    } else {
        let rest = split_on(s.drop_first(), sep);
        rest.update(0, seq![s[0]] + rest[0])
    }
}

/// Splitting always yields at least one piece.
proof fn lemma_split_nonempty(s: Seq<u8>, sep: u8)
    ensures
        split_on(s, sep).len() >= 1,
    decreases s.len(),
{
    if s.len() > 0 {
        lemma_split_nonempty(s.drop_first(), sep);
    }
}

/// When the first separator of `s` is at `k` (or `s` has none and `k` is its
/// length), the first piece is `s[..k]` and the others are the pieces of
/// what follows the separator.
proof fn lemma_split_at_first(s: Seq<u8>, sep: u8, k: int)
    requires
        0 <= k <= s.len(),
        forall|j: int| 0 <= j < k ==> s[j] != sep,
        k < s.len() ==> s[k] == sep,
    ensures
        split_on(s, sep) == seq![s.take(k)] + (if k < s.len() {
            split_on(s.skip(k + 1), sep)
        } else {
            Seq::empty()
        }),
    decreases k,
{
    if k == 0 {
        if s.len() == 0 {
            assert(s.take(0) =~= Seq::<u8>::empty());
            assert(split_on(s, sep) =~= seq![s.take(k)]);
        } else {
            assert(s.take(0) =~= Seq::<u8>::empty());
            assert(s.drop_first() =~= s.skip(1));
        }
    } else {
        let t = s.drop_first();
        assert forall|j: int| 0 <= j < k - 1 implies t[j] != sep by {
            assert(t[j] == s[j + 1]);
        }
        lemma_split_at_first(t, sep, k - 1);
        lemma_split_nonempty(t, sep);
        assert(seq![s[0]] + t.take(k - 1) =~= s.take(k));
        if k < s.len() {
            assert(t.skip(k) =~= s.skip(k + 1));
        }
        let rest = split_on(t, sep);
        assert(split_on(s, sep) =~= rest.update(0, seq![s[0]] + rest[0]));
        assert(split_on(s, sep) =~= seq![s.take(k)] + (if k < s.len() {
            split_on(s.skip(k + 1), sep)
        } else {
            Seq::empty()
        }));
    }
}

/// Returns the position of the first `sep` in `bytes[start..limit]`, or
/// `limit` when there is none.
fn find_separator(bytes: &[u8], start: usize, limit: usize, sep: u8) -> (found: usize)
    requires
        start <= limit <= bytes.len(),
    ensures
        start <= found <= limit,
        forall|j: int| start <= j < found ==> bytes@[j] != sep,
        found < limit ==> bytes@[found as int] == sep,
{
    let mut i = start;
    while i < limit
        invariant
            start <= i <= limit <= bytes.len(),
            forall|j: int| start <= j < i ==> bytes@[j] != sep,
        decreases limit - i,
    {
        if bytes[i] == sep {
            return i;
        }
        i += 1;
    }
    i
}

// ---------------------------------------------------------------------------
// Decimal numbers
// ---------------------------------------------------------------------------

/// Whether `b` is an ASCII decimal digit.
pub open spec fn is_digit(b: u8) -> bool {
    0x30 <= b <= 0x39
}

/// The value of a string of ASCII decimal digits, most significant first.
pub open spec fn decimal_value(digits: Seq<u8>) -> nat
    decreases digits.len(),
{
    if digits.len() == 0 {
        0
    } else {
        decimal_value(digits.drop_last()) * 10 + (digits.last() - 0x30) as nat
    }
}

/// Whether every byte of `bytes` is an ASCII decimal digit.
pub open spec fn all_digits(bytes: Seq<u8>) -> bool {
    forall|j: int| 0 <= j < bytes.len() ==> is_digit(#[trigger] bytes[j])
}

/// The digits of a number written as `s`: what follows a leading `+`, or all
/// of `s` when it has none.
pub open spec fn unsigned_digits(s: Seq<u8>) -> Seq<u8> {
    if s.len() > 0 && s[0] == 0x2B {
        s.drop_first()
    } else {
        s
    }
}

/// What `str::parse::<usize>` gives for the bytes `s`: the value of the
/// digits, after at most one leading `+`, when there is at least one digit,
/// nothing else, and the value fits in a `usize`; `None` otherwise.
pub open spec fn parsed_usize(s: Seq<u8>) -> Option<usize> {
    if s.len() == 0 {
        None
    } else if s.len() == 1 && (s[0] == 0x2B || s[0] == 0x2D) {
        None
    } else if all_digits(unsigned_digits(s)) && decimal_value(unsigned_digits(s)) <= usize::MAX {
        Some(decimal_value(unsigned_digits(s)) as usize)
    } else {
        None
    }
}

/// Appending digits never makes a decimal value smaller.
proof fn lemma_decimal_value_grows(digits: Seq<u8>, k: int)
    requires
        0 <= k <= digits.len(),
        all_digits(digits),
    ensures
        decimal_value(digits.take(k)) <= decimal_value(digits),
    decreases digits.len() - k,
{
    if k < digits.len() {
        let longer = digits.take(k + 1);
        assert(longer.drop_last() =~= digits.take(k));
        lemma_decimal_value_grows(digits, k + 1);
    } else {
        assert(digits.take(k) =~= digits);
    }
}

/// Parses `bytes[start..end]` as `str::parse::<usize>` does.
pub fn parse_usize(bytes: &[u8], start: usize, end: usize) -> (value: Option<usize>)
    requires
        start <= end <= bytes.len(),
    ensures
        value == parsed_usize(bytes@.subrange(start as int, end as int)),
{
    let ghost s = bytes@.subrange(start as int, end as int);
    if start == end {
        return None;
    }
    if end - start == 1 && (bytes[start] == 0x2Bu8 || bytes[start] == 0x2Du8) {
        return None;
    }
    let first: usize = if bytes[start] == 0x2Bu8 {
        start + 1
    } else {
        start
    };
    let ghost digits = bytes@.subrange(first as int, end as int);
    assert(digits =~= unsigned_digits(s));
    let mut value: usize = 0;
    let mut i: usize = first;
    while i < end
        invariant
            first <= i <= end <= bytes.len(),
            digits == bytes@.subrange(first as int, end as int),
            s == bytes@.subrange(start as int, end as int),
            start < end,
            !(s.len() == 1 && (s[0] == 0x2B || s[0] == 0x2D)),
            digits == unsigned_digits(s),
            forall|j: int| first <= j < i ==> is_digit(#[trigger] bytes@[j]),
            value == decimal_value(bytes@.subrange(first as int, i as int)),
        decreases end - i,
    {
        let b = bytes[i];
        if !(0x30u8 <= b && b <= 0x39u8) {
            proof {
                assert(digits[i - first] == b);
                assert(!is_digit(digits[i - first]));
            }
            return None;
        }
        assert(bytes@.subrange(first as int, i + 1).drop_last() =~= bytes@.subrange(
            first as int,
            i as int,
        ));
        let digit: usize = (b - 0x30u8) as usize;
        if value > (usize::MAX - digit) / 10 {
            proof {
                if all_digits(digits) {
                    let prefix = bytes@.subrange(first as int, i + 1);
                    assert(digits.take(i + 1 - first) =~= prefix);
                    assert(prefix.last() == b);
                    assert(decimal_value(prefix) == decimal_value(prefix.drop_last()) * 10 + (b
                        - 0x30) as nat);
                    lemma_decimal_value_grows(digits, i + 1 - first);
                    assert(value * 10 + digit > usize::MAX) by (nonlinear_arith)
                        requires
                            value > (usize::MAX - digit) / 10,
                            digit <= 9,
                    ;
                }
            }
            return None;
        }
        assert(value * 10 + digit <= usize::MAX) by (nonlinear_arith)
            requires
                value <= (usize::MAX - digit) / 10,
                digit <= 9,
        ;
        value = value * 10 + digit;
        i += 1;
    }
    assert(bytes@.subrange(first as int, i as int) =~= digits);
    Some(value)
}

// ---------------------------------------------------------------------------
// Lines of an OBJ file
// ---------------------------------------------------------------------------

/// What a line of an OBJ file describes, by the prefix it starts with.
#[derive(Clone, Copy, Debug, PartialEq, Eq)]
pub enum ObjLineKind {
    /// `v `: a vertex position; its numbers start at byte 2.
    Vertex,
    /// `vt `: a texture coordinate; its numbers start at byte 3.
    TexelCoordinate,
    /// `f `: a face; its corners start at byte 2.
    Face,
    /// Any other line, which the loader skips.
    Other,
}

/// Whether `line` starts with the bytes of `prefix`.
pub open spec fn starts_with(line: Seq<u8>, prefix: Seq<u8>) -> bool {
    prefix.len() <= line.len() && line.take(prefix.len() as int) == prefix
}

/// The kind of an OBJ line: `v ` before `vt ` before `f `, as the loader
/// tests them.
pub open spec fn obj_line_kind_of(line: Seq<u8>) -> ObjLineKind {
    if starts_with(line, seq![0x76u8, 0x20u8]) {
        ObjLineKind::Vertex
    } else if starts_with(line, seq![0x76u8, 0x74u8, 0x20u8]) {
        ObjLineKind::TexelCoordinate
    } else if starts_with(line, seq![0x66u8, 0x20u8]) {
        ObjLineKind::Face
    } else {
        ObjLineKind::Other
    }
}

/// A line is a vertex line exactly when it starts with `v` and a space, a
/// texture coordinate line exactly when it starts with `v`, `t` and a space,
/// a face line exactly when it starts with `f` and a space; a line that does
/// not start with `v` or `f` is none of these.
pub proof fn lemma_obj_line_kind_by_prefix(line: Seq<u8>)
    ensures
        obj_line_kind_of(line) == ObjLineKind::Vertex <==> (line.len() >= 2 && line[0] == 0x76u8
            && line[1] == 0x20u8),
        obj_line_kind_of(line) == ObjLineKind::TexelCoordinate <==> (line.len() >= 3 && line[0]
            == 0x76u8 && line[1] == 0x74u8 && line[2] == 0x20u8),
        obj_line_kind_of(line) == ObjLineKind::Face <==> (line.len() >= 2 && line[0] == 0x66u8
            && line[1] == 0x20u8),
        (line.len() == 0 || (line[0] != 0x76u8 && line[0] != 0x66u8)) ==> obj_line_kind_of(line)
            == ObjLineKind::Other,
{
    let v_sp = seq![0x76u8, 0x20u8];
    let v_t_sp = seq![0x76u8, 0x74u8, 0x20u8];
    let f_sp = seq![0x66u8, 0x20u8];
    if line.len() >= 2 {
        let two = line.take(2);
        assert(two[0] == line[0] && two[1] == line[1]);
        if line[0] == 0x76u8 && line[1] == 0x20u8 {
            assert(two =~= v_sp);
        }
        if line[0] == 0x66u8 && line[1] == 0x20u8 {
            assert(two =~= f_sp);
        }
        if two == v_sp {
            assert(v_sp[0] == 0x76u8 && v_sp[1] == 0x20u8);
        }
        if two == f_sp {
            assert(f_sp[0] == 0x66u8 && f_sp[1] == 0x20u8);
        }
    }
    if line.len() >= 3 {
        let three = line.take(3);
        assert(three[0] == line[0] && three[1] == line[1] && three[2] == line[2]);
        if line[0] == 0x76u8 && line[1] == 0x74u8 && line[2] == 0x20u8 {
            assert(three =~= v_t_sp);
        }
        if three == v_t_sp {
            assert(v_t_sp[0] == 0x76u8 && v_t_sp[1] == 0x74u8 && v_t_sp[2] == 0x20u8);
        }
    }
}

/// Tells what the OBJ line `line` describes.
pub fn obj_line_kind(line: &[u8]) -> (kind: ObjLineKind)
    ensures
        kind == obj_line_kind_of(line@),
        kind == ObjLineKind::Vertex <==> (line@.len() >= 2 && line@[0] == 0x76u8 && line@[1]
            == 0x20u8),
        kind == ObjLineKind::TexelCoordinate <==> (line@.len() >= 3 && line@[0] == 0x76u8
            && line@[1] == 0x74u8 && line@[2] == 0x20u8),
        kind == ObjLineKind::Face <==> (line@.len() >= 2 && line@[0] == 0x66u8 && line@[1]
            == 0x20u8),
        (line@.len() == 0 || (line@[0] != 0x76u8 && line@[0] != 0x66u8)) ==> kind
            == ObjLineKind::Other,
{
    proof {
        lemma_obj_line_kind_by_prefix(line@);
    }
    let n = line.len();
    if n >= 2 && line[0] == 0x76u8 && line[1] == 0x20u8 {
        assert(line@.take(2) =~= seq![0x76u8, 0x20u8]);
        ObjLineKind::Vertex
    } else if n >= 3 && line[0] == 0x76u8 && line[1] == 0x74u8 && line[2] == 0x20u8 {
        assert(line@.take(2) != seq![0x76u8, 0x20u8] || n < 2) by {
            if n >= 2 {
                assert(line@.take(2)[1] == 0x74u8);
            }
        }
        assert(line@.take(3) =~= seq![0x76u8, 0x74u8, 0x20u8]);
        ObjLineKind::TexelCoordinate
    } else if n >= 2 && line[0] == 0x66u8 && line[1] == 0x20u8 {
        assert(line@.take(2) =~= seq![0x66u8, 0x20u8]);
        assert(line@.take(2) != seq![0x76u8, 0x20u8]) by {
            assert(line@.take(2)[0] == 0x66u8);
        }
        assert(n < 3 || line@.take(3) != seq![0x76u8, 0x74u8, 0x20u8]) by {
            if n >= 3 {
                assert(line@.take(3)[0] == 0x66u8);
            }
        }
        ObjLineKind::Face
    } else {
        assert(n < 2 || line@.take(2) != seq![0x76u8, 0x20u8]) by {
            if n >= 2 && line@.take(2) == seq![0x76u8, 0x20u8] {
                assert(line@.take(2)[0] == line[0] && line@.take(2)[1] == line[1]);
            }
        }
        assert(n < 3 || line@.take(3) != seq![0x76u8, 0x74u8, 0x20u8]) by {
            if n >= 3 && line@.take(3) == seq![0x76u8, 0x74u8, 0x20u8] {
                assert(line@.take(3)[0] == line[0] && line@.take(3)[1] == line[1]
                    && line@.take(3)[2] == line[2]);
            }
        }
        assert(n < 2 || line@.take(2) != seq![0x66u8, 0x20u8]) by {
            if n >= 2 && line@.take(2) == seq![0x66u8, 0x20u8] {
                assert(line@.take(2)[0] == line[0] && line@.take(2)[1] == line[1]);
            }
        }
        ObjLineKind::Other
    }
}

// ---------------------------------------------------------------------------
// Faces
// ---------------------------------------------------------------------------

/// Why the corners of a face line could not be read.
#[derive(Clone, Copy, Debug, PartialEq, Eq)]
pub enum FaceParseError {
    /// A corner's vertex position is not a `usize`.
    InvalidVertexIndex,
    /// A corner has no `/` and so no texture coordinate position.
    MissingTexelIndex,
    /// A corner's texture coordinate position is not a `usize`.
    InvalidTexelIndex,
    /// The line has more than three corners.
    TooManyCorners,
}

/// The vertex and texture coordinate positions of one corner written as
/// `vertex/texel[/...]`, or why they cannot be read: the vertex position is
/// read first, then the texture coordinate position.
pub open spec fn corner_of(element: Seq<u8>) -> Result<(usize, usize), FaceParseError> {
    let parts = split_on(element, 0x2Fu8);
    match parsed_usize(parts[0]) {
        None => Err(FaceParseError::InvalidVertexIndex),
        Some(vertex) => if parts.len() < 2 {
            Err(FaceParseError::MissingTexelIndex)
        } else {
            match parsed_usize(parts[1]) {
                None => Err(FaceParseError::InvalidTexelIndex),
                Some(texel) => Ok((vertex, texel)),
            }
        },
    }
}

/// Reads the corners `elements` after those already `found`, from the left:
/// the first corner that cannot be read gives the error, and a fourth corner
/// is refused once it has been read.
pub open spec fn collect_corners(elements: Seq<Seq<u8>>, found: Seq<(usize, usize)>) -> Result<
    Seq<(usize, usize)>,
    FaceParseError,
>
    decreases elements.len(),
{
    if elements.len() == 0 {
        Ok(found)
    } else {
        match corner_of(elements[0]) {
            Err(e) => Err(e),
            Ok(corner) => if found.len() >= 3 {
                Err(FaceParseError::TooManyCorners)
            } else {
                collect_corners(elements.drop_first(), found.push(corner))
            },
        }
    }
}

/// The face with the given corners; a corner that is missing has position 0.
/// Faces read from a file are light gray.
pub open spec fn face_from_corners(corners: Seq<(usize, usize)>) -> Face {
    Face {
        a: if corners.len() > 0 { corners[0].0 } else { 0 },
        b: if corners.len() > 1 { corners[1].0 } else { 0 },
        c: if corners.len() > 2 { corners[2].0 } else { 0 },
        a_uv: if corners.len() > 0 { corners[0].1 } else { 0 },
        b_uv: if corners.len() > 1 { corners[1].1 } else { 0 },
        c_uv: if corners.len() > 2 { corners[2].1 } else { 0 },
        color: 0xFFAAAAAA,
    }
}

/// The face that the corners `rest` of a face line (what follows `f `)
/// describe, or why it cannot be read. Corners are separated by single
/// spaces; each is `vertex/texel`, possibly followed by more `/` parts.
pub open spec fn parsed_face(rest: Seq<u8>) -> Result<Face, FaceParseError> {
    match collect_corners(split_on(rest, 0x20u8), Seq::empty()) {
        Ok(corners) => Ok(face_from_corners(corners)),
        Err(e) => Err(e),
    }
}

/// Reads the corners `rest` of a face line (what follows `f `) into a face.
pub fn parse_face_elements(rest: &[u8]) -> (result: Result<Face, FaceParseError>)
    ensures
        result == parsed_face(rest@),
{
    let ghost s = rest@;
    let mut corners: Vec<(usize, usize)> = Vec::new();
    let mut pos: usize = 0;
    assert(s.skip(0) =~= s);
    loop
        invariant
            s == rest@,
            pos <= rest.len(),
            corners.len() <= 3,
            collect_corners(split_on(s, 0x20u8), Seq::empty()) == collect_corners(
                split_on(s.skip(pos as int), 0x20u8),
                corners@,
            ),
        decreases rest.len() - pos,
    {
        let piece_end = find_separator(rest, pos, rest.len(), 0x20u8);
        let ghost tail = s.skip(pos as int);
        let ghost element = s.subrange(pos as int, piece_end as int);
        proof {
            assert forall|j: int| 0 <= j < piece_end - pos implies tail[j] != 0x20u8 by {
                assert(tail[j] == s[pos + j]);
            }
            lemma_split_at_first(tail, 0x20u8, piece_end - pos);
            assert(tail.take(piece_end - pos) =~= element);
            if piece_end < rest.len() {
                assert(tail.skip(piece_end - pos + 1) =~= s.skip(piece_end + 1));
            }
        }
        let slash = find_separator(rest, pos, piece_end, 0x2Fu8);
        proof {
            assert forall|j: int| 0 <= j < slash - pos implies element[j] != 0x2Fu8 by {
                assert(element[j] == s[pos + j]);
            }
            lemma_split_at_first(element, 0x2Fu8, slash - pos);
            assert(element.take(slash - pos) =~= s.subrange(pos as int, slash as int));
        }
        let vertex = match parse_usize(rest, pos, slash) {
            Some(v) => v,
            None => {
                return Err(FaceParseError::InvalidVertexIndex);
            },
        };
        if slash == piece_end {
            return Err(FaceParseError::MissingTexelIndex);
        }
        let slash2 = find_separator(rest, slash + 1, piece_end, 0x2Fu8);
        proof {
            let after = element.skip(slash - pos + 1);
            assert forall|j: int| 0 <= j < slash2 - slash - 1 implies after[j] != 0x2Fu8 by {
                assert(after[j] == s[slash + 1 + j]);
            }
            lemma_split_at_first(after, 0x2Fu8, slash2 - slash - 1);
            lemma_split_nonempty(after, 0x2Fu8);
            assert(after.take(slash2 - slash - 1) =~= s.subrange(slash + 1, slash2 as int));
        }
        let texel = match parse_usize(rest, slash + 1, slash2) {
            Some(t) => t,
            None => {
                return Err(FaceParseError::InvalidTexelIndex);
            },
        };
        if corners.len() >= 3 {
            return Err(FaceParseError::TooManyCorners);
        }
        let ghost found = corners@;
        corners.push((vertex, texel));
        proof {
            let parts = split_on(element, 0x2Fu8);
            let after = element.skip(slash - pos + 1);
            assert(parts =~= seq![element.take(slash - pos)] + split_on(after, 0x2Fu8));
            assert(parts[0] == s.subrange(pos as int, slash as int));
            assert(parts[1] == split_on(after, 0x2Fu8)[0]);
            assert(corner_of(element) == Ok::<(usize, usize), FaceParseError>((vertex, texel)));
            let pieces = split_on(tail, 0x20u8);
            let later = if piece_end < rest.len() {
                split_on(s.skip(piece_end + 1), 0x20u8)
            } else {
                Seq::empty()
            };
            assert(pieces =~= seq![element] + later);
            assert(pieces[0] == element);
            assert(pieces.drop_first() =~= later);
            assert(corners@ == found.push((vertex, texel)));
            assert(collect_corners(pieces, found) == collect_corners(later, corners@));
        }
        if piece_end == rest.len() {
            return Ok(face_from_corner_list(&corners));
        }
        pos = piece_end + 1;
    }
}

/// The face with the given corners, as `face_from_corners` describes it.
fn face_from_corner_list(corners: &Vec<(usize, usize)>) -> (face: Face)
    requires
        corners.len() <= 3,
    ensures
        face == face_from_corners(corners@),
{
    let n = corners.len();
    Face {
        a: if n > 0 { corners[0].0 } else { 0 },
        b: if n > 1 { corners[1].0 } else { 0 },
        c: if n > 2 { corners[2].0 } else { 0 },
        a_uv: if n > 0 { corners[0].1 } else { 0 },
        b_uv: if n > 1 { corners[1].1 } else { 0 },
        c_uv: if n > 2 { corners[2].1 } else { 0 },
        color: 0xFFAAAAAA,
    }
}

// ---------------------------------------------------------------------------
// Laws of reading numbers and faces
// ---------------------------------------------------------------------------

/// The value of a digit string grows digit by digit: the empty string is 0 and
/// appending digit `d` multiplies by ten and adds the digit's value.
pub proof fn lemma_decimal_value_step(digits: Seq<u8>, d: u8)
    requires
        0x30 <= d <= 0x39,
    ensures
        decimal_value(Seq::<u8>::empty()) == 0,
        decimal_value(digits.push(d)) == 10 * decimal_value(digits) + (d - 0x30),
{
    assert(digits.push(d).drop_last() =~= digits);
    assert(digits.push(d).last() == d);
}

/// A single ASCII digit reads as its own value.
pub proof fn lemma_parse_single_digit(d: u8)
    requires
        0x30 <= d <= 0x39,
    ensures
        parsed_usize(seq![d]) == Some((d - 0x30) as usize),
{
    let s = seq![d];
    assert(unsigned_digits(s) == s);
    assert(s.drop_last() =~= Seq::<u8>::empty());
    assert(decimal_value(Seq::<u8>::empty()) == 0);
    assert(s.last() == d);
    assert(decimal_value(s) == d - 0x30);
}

/// Reading digits is positional: when the digits `s` read as `v`, the same
/// digits followed by digit `d` read as `10 * v + d`, as long as that fits in
/// a `usize`.
pub proof fn lemma_parse_appended_digit(s: Seq<u8>, d: u8, v: usize)
    requires
        s.len() >= 1,
        forall|j: int| 0 <= j < s.len() ==> 0x30 <= #[trigger] s[j] <= 0x39,
        0x30 <= d <= 0x39,
        parsed_usize(s) == Some(v),
        10 * v + (d - 0x30) <= usize::MAX,
    ensures
        parsed_usize(s.push(d)) == Some((10 * v + (d - 0x30)) as usize),
{
    let t = s.push(d);
    assert(unsigned_digits(s) == s);
    assert(unsigned_digits(t) == t);
    assert(all_digits(s));
    assert(decimal_value(s) == v);
    assert(t.drop_last() =~= s);
    assert(all_digits(t)) by {
        assert forall|j: int| 0 <= j < t.len() implies is_digit(#[trigger] t[j]) by {
            if j < s.len() {
                assert(t[j] == s[j]);
            }
        }
    }
    assert(decimal_value(t) == 10 * v + (d - 0x30));
}

/// A leading `+` does not change what a digit string reads as.
pub proof fn lemma_parse_plus_sign(s: Seq<u8>)
    requires
        s.len() >= 1,
        forall|j: int| 0 <= j < s.len() ==> 0x30 <= #[trigger] s[j] <= 0x39,
    ensures
        parsed_usize(seq![0x2Bu8] + s) == parsed_usize(s),
{
    let t = seq![0x2Bu8] + s;
    assert(unsigned_digits(s) == s);
    assert(t.drop_first() =~= s);
    assert(unsigned_digits(t) == s);
}

/// Splitting a piece with no separator gives the piece itself.
proof fn lemma_split_single(a: Seq<u8>, sep: u8)
    requires
        forall|j: int| 0 <= j < a.len() ==> a[j] != sep,
    ensures
        split_on(a, sep) == seq![a],
{
    lemma_split_at_first(a, sep, a.len() as int);
    assert(a.take(a.len() as int) =~= a);
}

/// Splitting `a`, a separator, then `rest`, where `a` holds no separator,
/// gives `a` followed by the pieces of `rest`.
proof fn lemma_split_prefix(a: Seq<u8>, sep: u8, rest: Seq<u8>)
    requires
        forall|j: int| 0 <= j < a.len() ==> a[j] != sep,
    ensures
        split_on(a + seq![sep] + rest, sep) == seq![a] + split_on(rest, sep),
{
    let s = a + seq![sep] + rest;
    let k = a.len() as int;
    assert forall|j: int| 0 <= j < k implies s[j] != sep by {
        assert(s[j] == a[j]);
    }
    assert(s[k] == sep);
    lemma_split_at_first(s, sep, k);
    assert(s.take(k) =~= a);
    assert(s.skip(k + 1) =~= rest);
}

/// Whether `s` is a non-empty string of ASCII digits.
pub open spec fn is_number(s: Seq<u8>) -> bool {
    s.len() >= 1 && forall|j: int| 0 <= j < s.len() ==> 0x30 <= #[trigger] s[j] <= 0x39
}

/// One corner `vertex/texel` of numbers that fit reads as the pair of the
/// numbers.
proof fn lemma_corner_of_numbers(vertex: Seq<u8>, texel: Seq<u8>)
    requires
        is_number(vertex),
        is_number(texel),
        parsed_usize(vertex) is Some,
        parsed_usize(texel) is Some,
    ensures
        corner_of(vertex + seq![0x2Fu8] + texel) == Ok::<(usize, usize), FaceParseError>(
            (parsed_usize(vertex)->0, parsed_usize(texel)->0),
        ),
{
    assert forall|j: int| 0 <= j < vertex.len() implies vertex[j] != 0x2Fu8 by {
        assert(0x30 <= vertex[j] <= 0x39);
    }
    assert forall|j: int| 0 <= j < texel.len() implies texel[j] != 0x2Fu8 by {
        assert(0x30 <= texel[j] <= 0x39);
    }
    lemma_split_prefix(vertex, 0x2Fu8, texel);
    lemma_split_single(texel, 0x2Fu8);
    let parts = split_on(vertex + seq![0x2Fu8] + texel, 0x2Fu8);
    assert(parts =~= seq![vertex, texel]);
}

/// The corner `vertex/texel` as bytes.
pub open spec fn corner_text(vertex: Seq<u8>, texel: Seq<u8>) -> Seq<u8> {
    vertex + seq![0x2Fu8] + texel
}

/// A face line `a/x b/y c/z` of numbers that fit reads as the face whose
/// corners are the vertices `a`, `b`, `c` with texture coordinates `x`, `y`,
/// `z`, each the value that `str::parse` gives for its digits.
pub proof fn lemma_face_of_three_corners(
    a: Seq<u8>,
    x: Seq<u8>,
    b: Seq<u8>,
    y: Seq<u8>,
    c: Seq<u8>,
    z: Seq<u8>,
)
    requires
        is_number(a),
        is_number(x),
        is_number(b),
        is_number(y),
        is_number(c),
        is_number(z),
        parsed_usize(a) is Some,
        parsed_usize(x) is Some,
        parsed_usize(b) is Some,
        parsed_usize(y) is Some,
        parsed_usize(c) is Some,
        parsed_usize(z) is Some,
    ensures
        parsed_face(
            corner_text(a, x) + seq![0x20u8] + corner_text(b, y) + seq![0x20u8] + corner_text(c, z),
        ) == Ok::<Face, FaceParseError>(
            Face {
                a: parsed_usize(a)->0,
                b: parsed_usize(b)->0,
                c: parsed_usize(c)->0,
                a_uv: parsed_usize(x)->0,
                b_uv: parsed_usize(y)->0,
                c_uv: parsed_usize(z)->0,
                color: 0xFFAAAAAA,
            },
        ),
{
    let e1 = corner_text(a, x);
    let e2 = corner_text(b, y);
    let e3 = corner_text(c, z);
    lemma_no_space_in_corner(a, x);
    lemma_no_space_in_corner(b, y);
    lemma_no_space_in_corner(c, z);
    lemma_corner_of_numbers(a, x);
    lemma_corner_of_numbers(b, y);
    lemma_corner_of_numbers(c, z);
    let tail = e2 + seq![0x20u8] + e3;
    lemma_split_prefix(e2, 0x20u8, e3);
    lemma_split_single(e3, 0x20u8);
    let line = e1 + seq![0x20u8] + e2 + seq![0x20u8] + e3;
    assert(line =~= e1 + seq![0x20u8] + tail);
    lemma_split_prefix(e1, 0x20u8, tail);
    let pieces = split_on(line, 0x20u8);
    assert(pieces =~= seq![e1, e2, e3]);
    let c1 = (parsed_usize(a)->0, parsed_usize(x)->0);
    let c2 = (parsed_usize(b)->0, parsed_usize(y)->0);
    let c3 = (parsed_usize(c)->0, parsed_usize(z)->0);
    assert(pieces.drop_first() =~= seq![e2, e3]);
    assert(pieces.drop_first().drop_first() =~= seq![e3]);
    assert(pieces.drop_first().drop_first().drop_first() =~= Seq::<Seq<u8>>::empty());
    assert(Seq::<(usize, usize)>::empty().push(c1).push(c2).push(c3) =~= seq![c1, c2, c3]);
    let p1 = pieces.drop_first();
    let p2 = p1.drop_first();
    let p3 = p2.drop_first();
    let f1 = Seq::<(usize, usize)>::empty().push(c1);
    let f2 = f1.push(c2);
    let f3 = f2.push(c3);
    assert(pieces[0] == e1 && p1[0] == e2 && p2[0] == e3);
    assert(collect_corners(p3, f3) == Ok::<Seq<(usize, usize)>, FaceParseError>(f3));
    assert(collect_corners(p2, f2) == collect_corners(p3, f3));
    assert(collect_corners(p1, f1) == collect_corners(p2, f2));
    assert(collect_corners(pieces, Seq::empty()) == collect_corners(p1, f1));
    assert(collect_corners(pieces, Seq::empty()) == Ok::<Seq<(usize, usize)>, FaceParseError>(
        seq![c1, c2, c3],
    ));
}

/// A corner of numbers holds no space.
proof fn lemma_no_space_in_corner(vertex: Seq<u8>, texel: Seq<u8>)
    requires
        is_number(vertex),
        is_number(texel),
    ensures
        forall|j: int|
            0 <= j < corner_text(vertex, texel).len() ==> corner_text(vertex, texel)[j] != 0x20u8,
{
    let e = corner_text(vertex, texel);
    assert forall|j: int| 0 <= j < e.len() implies e[j] != 0x20u8 by {
        if j < vertex.len() {
            assert(e[j] == vertex[j]);
        } else if j > vertex.len() {
            assert(e[j] == texel[j - vertex.len() - 1]);
        }
    }
}

} // verus!
