use vstd::prelude::*;
use vstd::std_specs::iter::IteratorSpec;
use vstd::string::{StrSliceExecFns, StringExecFns};

verus! {

/// A path as contracts see it: its segments, each as a sequence of chars.
pub type PathView = Seq<Seq<char>>;

/// The views of the segments of a path.
pub open spec fn segments(path: Seq<&str>) -> PathView {
    Seq::new(path.len(), |i: int| path[i]@)
}

/// The position of the first dot of `text`, or its length where it has none.
pub open spec fn first_dot(text: Seq<char>) -> int
    decreases text.len(),
{
    if text.len() == 0 {
        0
    } else if text[0] == '.' {
        0
    } else {
        1 + first_dot(text.drop_first())
    }
}

/// The segments of a dot-delimited path: the pieces of `text` between its
/// dots, in order. A text without a dot is its own single segment, the empty
/// text too; a leading, a trailing or a doubled dot gives an empty segment.
pub open spec fn split_dots(text: Seq<char>) -> PathView
    decreases text.len(),
{
    let dot = first_dot(text);
    if 0 <= dot < text.len() {
        seq![text.take(dot)] + split_dots(text.skip(dot + 1))
    } else {
        seq![text]
    }
}

/// `first_dot` is the one position that has no dot before it and holds a
/// dot, or is the end.
pub proof fn lemma_first_dot(text: Seq<char>, dot: int)
    requires
        0 <= dot <= text.len(),
        forall|i: int| 0 <= i < dot ==> text[i] != '.',
        dot < text.len() ==> text[dot] == '.',
    ensures
        first_dot(text) == dot,
    decreases text.len(),
{
    if dot > 0 {
        let rest = text.drop_first();
        assert forall|i: int| 0 <= i < dot - 1 implies rest[i] != '.' by {
            assert(rest[i] == text[i + 1]);
        }
        lemma_first_dot(rest, dot - 1);
    }
}

/// The segments of `path` put together again, with a dot between one and
/// the next.
pub open spec fn join_dots(path: PathView) -> Seq<char>
    decreases path.len(),
{
    if path.len() == 0 {
        Seq::empty()
    } else if path.len() == 1 {
        path[0]
    } else {
        path[0] + seq!['.'] + join_dots(path.drop_first())
    }
}

/// Splitting loses nothing and cuts at every dot: there is at least one
/// segment, no segment holds a dot, and the segments joined with dots are
/// the text again.
pub proof fn lemma_split_dots(text: Seq<char>)
    ensures
        split_dots(text).len() >= 1,
        forall|i: int, j: int|
            0 <= i < split_dots(text).len() && 0 <= j < split_dots(text)[i].len() ==> split_dots(
                text,
            )[i][j] != '.',
        join_dots(split_dots(text)) == text,
    decreases text.len(),
{
    let dot = first_dot(text);
    lemma_first_dot_is(text);
    if 0 <= dot < text.len() {
        let head = text.take(dot);
        let tail = text.skip(dot + 1);
        let pieces = split_dots(tail);
        lemma_split_dots(tail);
        let all = seq![head] + pieces;
        assert(all.drop_first() =~= pieces);
        assert(all[0] == head);
        assert(join_dots(all) =~= text) by {
            assert(head + seq!['.'] + tail =~= text);
        }
        assert forall|i: int, j: int| 0 <= i < all.len() && 0 <= j < all[i].len() implies all[i][j]
            != '.' by {
            if i > 0 {
                assert(all[i] == pieces[i - 1]);
            }
        }
    }
}

/// Before `first_dot` stands no dot, and at it stands a dot or the text
/// ends.
pub proof fn lemma_first_dot_is(text: Seq<char>)
    ensures
        0 <= first_dot(text) <= text.len(),
        forall|i: int| 0 <= i < first_dot(text) ==> text[i] != '.',
        first_dot(text) < text.len() ==> text[first_dot(text)] == '.',
    decreases text.len(),
{
    if text.len() > 0 && text[0] != '.' {
        let rest = text.drop_first();
        lemma_first_dot_is(rest);
        assert forall|i: int| 0 <= i < first_dot(text) implies text[i] != '.' by {
            if i > 0 {
                assert(text[i] == rest[i - 1]);
            }
        }
    }
}

/// Splits a dot-delimited path into its segments.
pub fn split_path<'a>(path: &'a str) -> (pieces: Vec<&'a str>)
    ensures
        segments(pieces@) == split_dots(path@),
{
    let total = path.unicode_len();
    let mut pieces: Vec<&'a str> = Vec::new();
    let mut start: usize = 0;
    let mut at: usize = 0;
    let mut chars = path.chars();
    proof {
        assert(path@.skip(0) =~= path@);
        assert(segments(pieces@) + split_dots(path@) =~= split_dots(path@));
    }
    loop
        invariant
            total == path@.len(),
            start <= at <= total,
            chars.remaining() == path@.skip(at as int),
            forall|i: int| start <= i < at ==> path@[i] != '.',
            split_dots(path@) == segments(pieces@) + split_dots(path@.skip(start as int)),
        ensures
            at == total,
        decreases total - at,
    {
        match chars.next() {
            None => {
                break ;
            },
            Some(c) => {
                assert(c == path@[at as int]);
                assert(chars.remaining() =~= path@.skip(at + 1));
                if c == '.' {
                    let piece = path.substring_char(start, at);
                    proof {
                        let tail = path@.skip(start as int);
                        lemma_first_dot(tail, at - start);
                        assert(tail.take(at - start) =~= path@.subrange(start as int, at as int));
                        assert(tail.skip(at - start + 1) =~= path@.skip(at + 1));
                        assert(segments(pieces@.push(piece)) =~= segments(pieces@) + seq![piece@]);
                    }
                    pieces.push(piece);
                    start = at + 1;
                }
                at = at + 1;
            },
        }
    }
    let piece = path.substring_char(start, total);
    proof {
        let tail = path@.skip(start as int);
        lemma_first_dot(tail, total - start);
        assert(tail =~= path@.subrange(start as int, total as int));
        assert(segments(pieces@.push(piece)) =~= segments(pieces@) + seq![piece@]);
    }
    pieces.push(piece);
    pieces
}

/// `text` with a backslash put before each of its dots.
pub open spec fn escape_dots(text: Seq<char>) -> Seq<char>
    decreases text.len(),
{
    if text.len() == 0 {
        Seq::empty()
    } else if text[0] == '.' {
        seq!['\\', '.'] + escape_dots(text.drop_first())
    } else {
        seq![text[0]] + escape_dots(text.drop_first())
    }
}

/// A path as an error shows it: its segments, the dots inside each escaped,
/// with a dot between one segment and the next.
pub open spec fn render(path: PathView) -> Seq<char>
    decreases path.len(),
{
    if path.len() == 0 {
        Seq::empty()
    } else if path.len() == 1 {
        escape_dots(path[0])
    } else {
        render(path.drop_last()) + seq!['.'] + escape_dots(path.last())
    }
}

/// Escaping goes through a concatenation piece by piece.
pub proof fn lemma_escape_concat(head: Seq<char>, tail: Seq<char>)
    ensures
        escape_dots(head + tail) == escape_dots(head) + escape_dots(tail),
    decreases head.len(),
{
    if head.len() == 0 {
        assert(head + tail =~= tail);
        assert(escape_dots(head) + escape_dots(tail) =~= escape_dots(tail));
    } else {
        let whole = head + tail;
        assert(whole.drop_first() =~= head.drop_first() + tail);
        lemma_escape_concat(head.drop_first(), tail);
        assert(whole[0] == head[0]);
        if head[0] == '.' {
            assert(escape_dots(whole) =~= escape_dots(head) + escape_dots(tail));
        } else {
            assert(escape_dots(whole) =~= escape_dots(head) + escape_dots(tail));
        }
    }
}

/// Escaping leaves a text without dots as it is.
pub proof fn lemma_escape_plain(text: Seq<char>)
    requires
        forall|i: int| 0 <= i < text.len() ==> text[i] != '.',
    ensures
        escape_dots(text) == text,
    decreases text.len(),
{
    if text.len() > 0 {
        let rest = text.drop_first();
        assert forall|i: int| 0 <= i < rest.len() implies rest[i] != '.' by {
            assert(rest[i] == text[i + 1]);
        }
        lemma_escape_plain(rest);
        assert(seq![text[0]] + rest =~= text);
    }
}

/// Appends `piece`, with its dots escaped, to `out`.
fn push_escaped(out: &mut String, piece: &str)
    ensures
        final(out)@ == old(out)@ + escape_dots(piece@),
{
    let ghost base = out@;
    let total = piece.unicode_len();
    let mut start: usize = 0;
    let mut at: usize = 0;
    let mut chars = piece.chars();
    proof {
        assert(piece@.skip(0) =~= piece@);
        assert(piece@.take(0) =~= Seq::<char>::empty());
        assert(base + escape_dots(piece@.take(0)) =~= base);
    }
    loop
        invariant
            total == piece@.len(),
            start <= at <= total,
            chars.remaining() == piece@.skip(at as int),
            forall|i: int| start <= i < at ==> piece@[i] != '.',
            out@ == base + escape_dots(piece@.take(start as int)),
        ensures
            at == total,
        decreases total - at,
    {
        match chars.next() {
            None => {
                break ;
            },
            Some(c) => {
                assert(c == piece@[at as int]);
                assert(chars.remaining() =~= piece@.skip(at + 1));
                if c == '.' {
                    let plain = piece.substring_char(start, at);
                    out.append(plain);
                    out.append("\\.");
                    proof {
                        reveal_strlit("\\.");
                        let done = piece@.take(start as int);
                        lemma_escape_plain(plain@);
                        lemma_escape_concat(done, plain@);
                        lemma_escape_concat(done + plain@, seq!['.']);
                        assert(seq!['.'].drop_first() =~= Seq::<char>::empty());
                        assert(escape_dots(seq!['.'].drop_first()) =~= Seq::<char>::empty());
                        assert(escape_dots(seq!['.']) =~= seq!['\\', '.']) by {
                            assert(seq!['.'][0] == '.');
                            assert(seq!['\\', '.'] + Seq::<char>::empty() =~= seq!['\\', '.']);
                        }
                        assert("\\."@ =~= seq!['\\', '.']);
                        assert(piece@.take(at + 1) =~= done + plain@ + seq!['.']);
                        assert(out@ =~= base + escape_dots(piece@.take(at + 1)));
                    }
                    start = at + 1;
                }
                at = at + 1;
            },
        }
    }
    let plain = piece.substring_char(start, total);
    out.append(plain);
    proof {
        let done = piece@.take(start as int);
        lemma_escape_plain(plain@);
        lemma_escape_concat(done, plain@);
        assert(piece@ =~= done + plain@);
        assert(out@ =~= base + escape_dots(piece@));
    }
}

/// Renders a path for an error message.
pub fn render_path(path: &[&str]) -> (text: String)
    ensures
        text@ == render(segments(path@)),
{
    let mut text = String::new();
    let mut i: usize = 0;
    while i < path.len()
        invariant
            i <= path.len(),
            text@ == render(segments(path@).take(i as int)),
        decreases path.len() - i,
    {
        if i > 0 {
            text.append(".");
        }
        push_escaped(&mut text, path[i]);
        proof {
            reveal_strlit(".");
            assert("."@ =~= seq!['.']);
            let now = segments(path@).take(i + 1);
            assert(now.drop_last() =~= segments(path@).take(i as int));
            assert(now.last() == path@[i as int]@);
        }
        i += 1;
    }
    proof {
        assert(segments(path@).take(i as int) =~= segments(path@));
    }
    text
}

/// The number that a run of decimal digits writes.
pub open spec fn digits_value(digits: Seq<char>) -> nat
    decreases digits.len(),
{
    if digits.len() == 0 {
        0
    } else {
        (digits_value(digits.drop_last()) * 10 + (digits.last() as int - '0' as int)) as nat
    }
}

/// Whether `text` is one or more of the digits `0` to `9`.
pub open spec fn is_digits(text: Seq<char>) -> bool {
    &&& text.len() > 0
    &&& forall|i: int| 0 <= i < text.len() ==> '0' <= #[trigger] text[i] <= '9'
}

/// The digits of an index segment: the segment without a leading `+`.
pub open spec fn index_digits(segment: Seq<char>) -> Seq<char> {
    if segment.len() > 0 && segment[0] == '+' {
        segment.drop_first()
    } else {
        segment
    }
}

/// The number that an index segment writes, of whatever size: the segment
/// is decimal digits, after one `+` at most. Any other segment, the empty
/// one too, writes no number.
pub open spec fn index_number(segment: Seq<char>) -> Option<nat> {
    let digits = index_digits(segment);
    if is_digits(digits) {
        Some(digits_value(digits))
    } else {
        None
    }
}

/// The number that an index segment writes, where it writes one that a
/// `usize` holds.
pub open spec fn index_of(segment: Seq<char>) -> Option<usize> {
    match index_number(segment) {
        Some(number) if number <= usize::MAX => Some(number as usize),
        _ => None,
    }
}

#[verifier::external_type_specification]
#[verifier::external_body]
pub struct ExParseIntError(core::num::ParseIntError);

/// The error with which `str::parse::<usize>` refuses `segment`, where it
/// refuses it.
pub uninterp spec fn index_failure(segment: Seq<char>) -> core::num::ParseIntError;

/// Calls `str::parse::<usize>`. The contract is what the standard library
/// documents of it: the text is accepted exactly when it is decimal digits,
/// after an optional `+` sign, whose number fits a `usize`, and that number
/// is returned; anything else, the empty text too, is an error, and the
/// same text is always refused with the same error.
#[verifier::external_body]
pub(crate) fn parse_index(segment: &str) -> (parsed: Result<usize, core::num::ParseIntError>)
    ensures
        parsed is Ok <==> index_of(segment@) is Some,
        parsed matches Ok(index) ==> index_of(segment@) == Some(index),
        parsed matches Err(failure) ==> failure == index_failure(segment@),
{
    segment.parse::<usize>()
}

/// Whether `segment` writes a number: whether it is decimal digits, after
/// one `+` at most.
pub fn is_index_text(segment: &str) -> (written: bool)
    ensures
        written == (index_number(segment@) is Some),
{
    let total = segment.unicode_len();
    let mut at: usize = 0;
    let mut signed = false;
    let mut chars = segment.chars();
    proof {
        assert(segment@.skip(0) =~= segment@);
    }
    loop
        invariant
            total == segment@.len(),
            at <= total,
            chars.remaining() == segment@.skip(at as int),
            signed ==> at >= 1 && segment@[0] == '+',
            !signed && at >= 1 ==> segment@[0] != '+',
            forall|i: int| (if signed { 1int } else { 0int }) <= i < at ==> '0' <= #[trigger] segment@[i] <= '9',
        ensures
            at == total,
        decreases total - at,
    {
        match chars.next() {
            None => {
                break ;
            },
            Some(c) => {
                assert(c == segment@[at as int]);
                assert(chars.remaining() =~= segment@.skip(at + 1));
                if at == 0 && c == '+' {
                    signed = true;
                } else if !('0' <= c && c <= '9') {
                    proof {
                        let digits = index_digits(segment@);
                        let start = if signed { 1int } else { 0int };
                        assert(digits[at - start] == c);
                    }
                    return false;
                }
                at = at + 1;
            },
        }
    }
    proof {
        let digits = index_digits(segment@);
        let start = if signed { 1int } else { 0int };
        assert(digits.len() == total - start);
        assert forall|i: int| 0 <= i < digits.len() implies '0' <= #[trigger] digits[i] <= '9' by {
            assert(digits[i] == segment@[i + start]);
        }
    }
    if signed {
        total > 1
    } else {
        total > 0
    }
}

/// Reads the index that `segment` writes. A segment that writes no number
/// is refused, with the error that parsing it gives. A number that a
/// `usize` holds is handed out; a number beyond every `usize`, and so
/// beyond the end of every sequence, is `None`.
pub fn read_index(segment: &str) -> (read: Result<Option<usize>, core::num::ParseIntError>)
    ensures
        read == match index_number(segment@) {
            None => Err::<Option<usize>, core::num::ParseIntError>(index_failure(segment@)),
            Some(number) => Ok(
                if number <= usize::MAX {
                    Some(number as usize)
                } else {
                    None
                },
            ),
        },
{
    match parse_index(segment) {
        Ok(index) => Ok(Some(index)),
        Err(failure) => {
            if is_index_text(segment) {
                Ok(None)
            } else {
                Err(failure)
            }
        },
    }
}

/// The digit that writes `d`, for `d` below ten.
pub open spec fn digit(d: nat) -> char {
    ('0' as int + d) as char
}

/// The decimal digits that write `n`, without leading zeros.
pub open spec fn decimal(n: nat) -> Seq<char>
    decreases n,
{
    if n < 10 {
        seq![digit(n)]
    } else {
        decimal(n / 10).push(digit(n % 10))
    }
}

/// The decimal digits of a number are digits, and they write that number.
pub proof fn lemma_decimal(n: nat)
    ensures
        is_digits(decimal(n)),
        digits_value(decimal(n)) == n,
    decreases n,
{
    let text = decimal(n);
    if n < 10 {
        assert(text.drop_last() =~= Seq::<char>::empty());
        assert(digits_value(text.drop_last()) == 0);
        assert(text.last() == digit(n));
        assert(text.last() as int - '0' as int == n);
    } else {
        lemma_decimal(n / 10);
        let head = decimal(n / 10);
        assert(text.drop_last() =~= head);
        assert(text.last() == digit(n % 10));
        assert(text.last() as int - '0' as int == n % 10);
        assert forall|i: int| 0 <= i < text.len() implies '0' <= #[trigger] text[i] <= '9' by {
            if i < head.len() {
                assert(text[i] == head[i]);
            }
        }
    }
}

/// A segment that writes a number in decimal is an index segment, and
/// the number that it writes is that number.
pub proof fn lemma_index_of_decimal(n: nat)
    ensures
        index_number(decimal(n)) == Some(n),
        n <= usize::MAX ==> index_of(decimal(n)) == Some(n as usize),
{
    lemma_decimal(n);
    let text = decimal(n);
    assert('0' <= text[0] <= '9');
}

} // verus!
