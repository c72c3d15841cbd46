//! The names of the files of a map. The image of the chunk at `(x, y)` is
//! kept in the file `chunk_<x>_<y>.png`, with both numbers in decimal.
use vstd::prelude::*;
use crate::geometry::IVec2;

verus! {

/// The decimal digits of `n`, the most significant first.
pub open spec fn digits_of(n: nat) -> Seq<u8>
    decreases n,
{
    if n < 10 {
        seq![(48 + n) as u8]
    } else {
        digits_of(n / 10).push((48 + n % 10) as u8)
    }
}

/// The number `v` as it is written in a name: a minus sign where it is
/// negative, and its digits.
pub open spec fn number_text(v: int) -> Seq<u8> {
    if v < 0 {
        seq![45u8] + digits_of((-v) as nat)
    } else {
        digits_of(v as nat)
    }
}

/// What every name of a chunk file begins with: `chunk_`.
pub open spec fn name_start() -> Seq<u8> {
    seq![99u8, 104u8, 117u8, 110u8, 107u8, 95u8]
}

/// What every name of a chunk file ends with: `.png`.
pub open spec fn name_end() -> Seq<u8> {
    seq![46u8, 112u8, 110u8, 103u8]
}

/// The name of the file of the chunk at `pos`.
pub open spec fn chunk_name(pos: IVec2) -> Seq<u8> {
    name_start() + number_text(pos.x as int) + seq![95u8] + number_text(pos.y as int) + name_end()
}

/// Whether every byte of `text` is a decimal digit.
pub open spec fn all_digits(text: Seq<u8>) -> bool {
    forall|i: int| 0 <= i < text.len() ==> 48 <= #[trigger] text[i] <= 57
}

/// The number that the digits `text` stand for.
pub open spec fn digits_value(text: Seq<u8>) -> nat
    decreases text.len(),
{
    if text.len() == 0 {
        0
    } else {
        digits_value(text.drop_last()) * 10 + (text.last() - 48) as nat
    }
}

/// Whether `text` begins with a plus or a minus sign.
pub open spec fn has_sign(text: Seq<u8>) -> bool {
    text.len() > 0 && (text[0] == 45 || text[0] == 43)
}

/// The number that `text` stands for: a sign or none, then one digit or
/// more, zeros in front allowed, and a value that a coordinate can hold.
/// `None` for every other text.
pub open spec fn number_of(text: Seq<u8>) -> Option<int> {
    let digits = if has_sign(text) {
        text.skip(1)
    } else {
        text
    };
    let value = if has_sign(text) && text[0] == 45 {
        -(digits_value(digits) as int)
    } else {
        digits_value(digits) as int
    };
    if digits.len() > 0 && all_digits(digits) && i32::MIN <= value <= i32::MAX {
        Some(value)
    } else {
        None
    }
}

/// The place of the first underscore of `text` from place `from` on; the
/// length of `text` where there is none.
pub open spec fn underscore_from(text: Seq<u8>, from: int) -> int
    decreases text.len() - from,
{
    if from < 0 || from >= text.len() {
        text.len() as int
    } else if text[from] == 95 {
        from
    } else {
        underscore_from(text, from + 1)
    }
}

/// The chunk whose file is named `name`: the name is `chunk_`, a number, an
/// underscore, a number and `.png`. `None` for every other name.
pub open spec fn parsed_chunk_name(name: Seq<u8>) -> Option<IVec2> {
    let n = name.len() as int;
    let cut = underscore_from(name, 6);
    if n >= 10 && name.subrange(0, 6) == name_start() && name.subrange(n - 4, n) == name_end()
        && cut < n - 4 {
        match (number_of(name.subrange(6, cut)), number_of(name.subrange(cut + 1, n - 4))) {
            (Some(x), Some(y)) => Some(IVec2 { x: x as i32, y: y as i32 }),
            _ => None,
        }
    } else {
        None
    }
}

/// The digits of a number are digits, at least one, and stand for the
/// number.
pub proof fn lemma_digits_of(n: nat)
    ensures
        digits_of(n).len() > 0,
        all_digits(digits_of(n)),
        digits_value(digits_of(n)) == n,
    decreases n,
{
    if n < 10 {
        let text = digits_of(n);
        assert(text.drop_last().len() == 0);
        assert(digits_value(text.drop_last()) == 0);
        assert(text.last() == (48 + n) as u8);
    } else {
        lemma_digits_of(n / 10);
        let text = digits_of(n);
        let front = digits_of(n / 10);
        assert(text.drop_last() =~= front);
        assert(text.last() == (48 + n % 10) as u8);
        assert forall|i: int| 0 <= i < text.len() implies 48 <= #[trigger] text[i] <= 57 by {
            if i < front.len() {
                assert(text[i] == front[i]);
            }
        }
    }
}

/// A number is read back from what was written of it.
pub proof fn lemma_number_text_is_read_back(v: int)
    requires
        i32::MIN <= v <= i32::MAX,
    ensures
        number_of(number_text(v)) == Some(v),
        number_text(v).len() > 0,
        forall|i: int| 0 <= i < number_text(v).len() ==> #[trigger] number_text(v)[i] != 95,
{
    let text = number_text(v);
    if v < 0 {
        let digits = digits_of((-v) as nat);
        lemma_digits_of((-v) as nat);
        assert(text[0] == 45);
        assert(text.skip(1) =~= digits);
        assert forall|i: int| 0 <= i < text.len() implies #[trigger] text[i] != 95 by {
            if i > 0 {
                assert(text[i] == digits[i - 1]);
            }
        }
    } else {
        lemma_digits_of(v as nat);
        assert(48 <= text[0] <= 57);
    }
}

/// The first underscore lies at `at`, where no place from `from` up to `at`
/// holds one and `at` does.
pub proof fn lemma_underscore_from(text: Seq<u8>, from: int, at: int)
    requires
        0 <= from <= at < text.len(),
        text[at] == 95,
        forall|i: int| from <= i < at ==> #[trigger] text[i] != 95,
    ensures
        underscore_from(text, from) == at,
    decreases at - from,
{
    if from < at {
        lemma_underscore_from(text, from + 1, at);
    }
}

/// The name of a chunk's file names that chunk, and no other.
pub proof fn lemma_chunk_name_is_read_back(pos: IVec2)
    ensures
        parsed_chunk_name(chunk_name(pos)) == Some(pos),
{
    let first = number_text(pos.x as int);
    let second = number_text(pos.y as int);
    let name = chunk_name(pos);
    let n = name.len() as int;
    let a = first.len() as int;
    lemma_number_text_is_read_back(pos.x as int);
    lemma_number_text_is_read_back(pos.y as int);
    assert(n == 6 + a + 1 + second.len() + 4);
    assert(name.subrange(0, 6) =~= name_start());
    assert(name.subrange(n - 4, n) =~= name_end());
    assert forall|i: int| 6 <= i < 6 + a implies #[trigger] name[i] != 95 by {
        assert(name[i] == first[i - 6]);
    }
    assert(name[6 + a] == 95);
    lemma_underscore_from(name, 6, 6 + a);
    assert(name.subrange(6, 6 + a) =~= first);
    assert(name.subrange(6 + a + 1, n - 4) =~= second);
}

/// Appends the digits of `n` to `text`.
fn push_digits(text: &mut Vec<u8>, n: u64)
    ensures
        final(text)@ == old(text)@ + digits_of(n as nat),
    decreases n,
{
    if n >= 10 {
        push_digits(text, n / 10);
    }
    let digit: u8 = (48 + n % 10) as u8;
    text.push(digit);
    assert(final(text)@ =~= old(text)@ + digits_of(n as nat));
}

/// Appends the number `v` to `text`, as it is written in a name.
fn push_number(text: &mut Vec<u8>, v: i32)
    ensures
        final(text)@ == old(text)@ + number_text(v as int),
{
    if v < 0 {
        text.push(45u8);
        let size: u64 = (0 - v as i64) as u64;
        push_digits(text, size);
        assert(final(text)@ =~= old(text)@ + number_text(v as int));
    } else {
        push_digits(text, v as u64);
    }
}

/// The name of the file that holds the image of the chunk at `pos`.
pub fn chunk_file_name(pos: IVec2) -> (name: Vec<u8>)
    ensures
        name@ == chunk_name(pos),
        parsed_chunk_name(name@) == Some(pos),
{
    let mut name: Vec<u8> = Vec::new();
    name.push(99u8);
    name.push(104u8);
    name.push(117u8);
    name.push(110u8);
    name.push(107u8);
    name.push(95u8);
    assert(name@ =~= name_start());
    push_number(&mut name, pos.x);
    name.push(95u8);
    push_number(&mut name, pos.y);
    name.push(46u8);
    name.push(112u8);
    name.push(110u8);
    name.push(103u8);
    proof {
        assert(name@ =~= chunk_name(pos));
        lemma_chunk_name_is_read_back(pos);
    }
    name
}

/// The number that the bytes of `name` from `from` up to `to` stand for.
fn read_number(name: &[u8], from: usize, to: usize) -> (number: Option<i32>)
    requires
        from <= to <= name.len(),
    ensures
        number.is_some() == number_of(name@.subrange(from as int, to as int)).is_some(),
        number matches Some(v) ==> number_of(name@.subrange(from as int, to as int)) == Some(
            v as int,
        ),
{
    let ghost text = name@.subrange(from as int, to as int);
    let signed: bool = from < to && (name[from] == 45u8 || name[from] == 43u8);
    let negative: bool = from < to && name[from] == 45u8;
    let start: usize = if signed {
        from + 1
    } else {
        from
    };
    let ghost digits = name@.subrange(start as int, to as int);
    proof {
        if from < to {
            assert(text[0] == name@[from as int]);
        }
        assert(signed == has_sign(text));
        if signed {
            assert(text.skip(1) =~= digits);
        } else {
            assert(text =~= digits);
        }
    }
    if start == to {
        return None;
    }
    let mut value: u64 = 0;
    let mut over: bool = false;
    let mut i: usize = start;
    while i < to
        invariant
            start <= i <= to <= name.len(),
            digits == name@.subrange(start as int, to as int),
            text == name@.subrange(from as int, to as int),
            digits == if has_sign(text) {
                text.skip(1)
            } else {
                text
            },
            all_digits(name@.subrange(start as int, i as int)),
            over ==> digits_value(name@.subrange(start as int, i as int)) > 0x8000_0000,
            !over ==> value == digits_value(name@.subrange(start as int, i as int)) && value
                <= 0x8000_0000,
        decreases to - i,
    {
        let byte: u8 = name[i];
        if byte < 48u8 || byte > 57u8 {
            proof {
                assert(digits[i - start] == byte);
                assert(!all_digits(digits));
            }
            return None;
        }
        let ghost before = name@.subrange(start as int, i as int);
        let ghost after = name@.subrange(start as int, i + 1);
        proof {
            assert(after.drop_last() =~= before);
            assert(after.last() == byte);
            assert(digits_value(after) == digits_value(before) * 10 + (byte - 48));
            assert forall|k: int| 0 <= k < after.len() implies 48 <= #[trigger] after[k] <= 57 by {
                if k < before.len() {
                    assert(after[k] == before[k]);
                }
            }
        }
        if !over {
            let next: u64 = value * 10 + (byte - 48u8) as u64;
            if next > 0x8000_0000 {
                over = true;
            } else {
                value = next;
            }
        }
        i += 1;
    }
    proof {
        assert(name@.subrange(start as int, i as int) =~= digits);
    }
    if over {
        None
    } else if negative {
        let v: i64 = 0 - value as i64;
        Some(v as i32)
    } else if value <= 0x7fff_ffff {
        Some(value as i32)
    } else {
        None
    }
}

/// The chunk whose image the file named `name` holds, if `name` is the name
/// of a chunk's file.
pub fn parse_chunk_file_name(name: &[u8]) -> (pos: Option<IVec2>)
    ensures
        pos == parsed_chunk_name(name@),
{
    let n: usize = name.len();
    if n < 10 {
        return None;
    }
    let starts: bool = name[0] == 99u8 && name[1] == 104u8 && name[2] == 117u8 && name[3] == 110u8
        && name[4] == 107u8 && name[5] == 95u8;
    let ends: bool = name[n - 4] == 46u8 && name[n - 3] == 112u8 && name[n - 2] == 110u8 && name[n
        - 1] == 103u8;
    proof {
        let head = name@.subrange(0, 6);
        let tail = name@.subrange(n - 4, n as int);
        if starts {
            assert(head =~= name_start());
        } else {
            assert(head[0] == name@[0] && head[1] == name@[1] && head[2] == name@[2] && head[3]
                == name@[3] && head[4] == name@[4] && head[5] == name@[5]);
            assert(name_start()[0] == 99 && name_start()[1] == 104 && name_start()[2] == 117
                && name_start()[3] == 110 && name_start()[4] == 107 && name_start()[5] == 95);
        }
        if ends {
            assert(tail =~= name_end());
        } else {
            assert(tail[0] == name@[n - 4] && tail[1] == name@[n - 3] && tail[2] == name@[n - 2]
                && tail[3] == name@[n - 1]);
            assert(name_end()[0] == 46 && name_end()[1] == 112 && name_end()[2] == 110
                && name_end()[3] == 103);
        }
    }
    if !starts || !ends {
        return None;
    }
    let mut cut: usize = 6;
    while cut < n && name[cut] != 95u8
        invariant
            6 <= cut <= n == name.len(),
            underscore_from(name@, 6) == underscore_from(name@, cut as int),
        decreases n - cut,
    {
        cut += 1;
    }
    assert(underscore_from(name@, 6) == cut);
    if cut >= n - 4 {
        return None;
    }
    let x: Option<i32> = read_number(name, 6, cut);
    let y: Option<i32> = read_number(name, cut + 1, n - 4);
    match (x, y) {
        (Some(x), Some(y)) => Some(IVec2 { x, y }),
        _ => None,
    }
}

} // verus!
