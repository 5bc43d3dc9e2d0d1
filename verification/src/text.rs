//! Texts: their order, byte by byte over their UTF-8 encoding, a shorter text
//! before any text that it begins; and the writing of numbers.

use crate::ranking::{in_rank_order, insert_in_rank, Ranked};
use vstd::prelude::*;
use vstd::string::StringExecFns;
use vstd::string::StringSliceAdditionalSpecFns;

verus! {

/// The length of the longest common beginning of `a` and `b`, counted from
/// `from`, up to which they are known to agree.
pub open spec fn common_length(a: Seq<u8>, b: Seq<u8>, from: int) -> int
    decreases a.len() - from,
{
    if 0 <= from < a.len() && from < b.len() && a[from] == b[from] {
        common_length(a, b, from + 1)
    } else {
        from
    }
}

/// `a` comes strictly before `b`: where they first differ `a` has the smaller
/// byte, or `a` ends there and `b` goes on.
pub open spec fn bytes_precede(a: Seq<u8>, b: Seq<u8>) -> bool {
    let k = common_length(a, b, 0);
    k < b.len() && (k == a.len() || a[k] < b[k])
}

/// The text `a` comes strictly before the text `b` in the order of their
/// UTF-8 encodings.
pub open spec fn text_precedes(a: Seq<char>, b: Seq<char>) -> bool {
    bytes_precede(vstd::utf8::encode_utf8(a), vstd::utf8::encode_utf8(b))
}

/// `k` is where `a` and `b` part: they agree before `k`, and at `k` one of
/// them ends or they differ.
pub open spec fn part_at(a: Seq<u8>, b: Seq<u8>, k: int) -> bool {
    &&& 0 <= k <= a.len()
    &&& k <= b.len()
    &&& forall|i: int| 0 <= i < k ==> a[i] == b[i]
    &&& k == a.len() || k == b.len() || a[k] != b[k]
}

/// Two sequences part at their common length.
pub proof fn lemma_part_at_common_length(a: Seq<u8>, b: Seq<u8>, from: int)
    requires
        0 <= from <= a.len(),
        from <= b.len(),
        forall|i: int| 0 <= i < from ==> a[i] == b[i],
    ensures
        part_at(a, b, common_length(a, b, from)),
    decreases a.len() - from,
{
    if from < a.len() && from < b.len() && a[from] == b[from] {
        lemma_part_at_common_length(a, b, from + 1);
    }
}

/// Two sequences part at one place only.
pub proof fn lemma_part_at_unique(a: Seq<u8>, b: Seq<u8>, k: int)
    requires
        part_at(a, b, k),
    ensures
        common_length(a, b, 0) == k,
{
    lemma_part_at_common_length(a, b, 0);
    let c = common_length(a, b, 0);
    if c < k {
        assert(a[c] == b[c]);
    } else if k < c {
        assert(a[k] == b[k]);
    }
}

/// The order of byte sequences is transitive.
pub proof fn lemma_bytes_precede_transitive(a: Seq<u8>, b: Seq<u8>, c: Seq<u8>)
    requires
        bytes_precede(a, b),
        bytes_precede(b, c),
    ensures
        bytes_precede(a, c),
{
    lemma_part_at_common_length(a, b, 0);
    lemma_part_at_common_length(b, c, 0);
    let k1 = common_length(a, b, 0);
    let k2 = common_length(b, c, 0);
    let k = if k1 <= k2 {
        k1
    } else {
        k2
    };
    assert forall|i: int| 0 <= i < k implies a[i] == c[i] by {
        assert(a[i] == b[i]);
        assert(b[i] == c[i]);
    }
    if k1 < k2 {
        assert(b[k1] == c[k1]);
    } else if k2 < k1 {
        assert(a[k2] == b[k2]);
    }
    assert(part_at(a, c, k));
    lemma_part_at_unique(a, c, k);
}

/// No byte sequence comes before itself.
pub proof fn lemma_bytes_precede_irreflexive(a: Seq<u8>)
    ensures
        !bytes_precede(a, a),
{
    assert(part_at(a, a, a.len() as int));
    lemma_part_at_unique(a, a, a.len() as int);
}

/// True where the text `a` comes strictly before the text `b`.
pub fn precedes(a: &str, b: &str) -> (r: bool)
    ensures
        r == text_precedes(a@, b@),
{
    let x: &[u8] = a.as_bytes();
    let y: &[u8] = b.as_bytes();
    let mut i: usize = 0;
    while i < x.len() && i < y.len() && x[i] == y[i]
        invariant
            i <= x@.len(),
            i <= y@.len(),
            forall|k: int| 0 <= k < i ==> x@[k] == y@[k],
        decreases x@.len() - i,
    {
        i = i + 1;
    }
    proof {
        assert(part_at(x@, y@, i as int));
        lemma_part_at_unique(x@, y@, i as int);
    }
    i < y.len() && (i == x.len() || x[i] < y[i])
}

impl Ranked for String {
    /// In the order of texts.
    open spec fn ranks_before(&self, other: &Self) -> bool {
        text_precedes(self@, other@)
    }

    proof fn lemma_rank_is_irreflexive(a: &Self) {
        lemma_bytes_precede_irreflexive(vstd::utf8::encode_utf8(a@));
    }

    proof fn lemma_rank_is_transitive(a: &Self, b: &Self, c: &Self) {
        lemma_bytes_precede_transitive(
            vstd::utf8::encode_utf8(a@),
            vstd::utf8::encode_utf8(b@),
            vstd::utf8::encode_utf8(c@),
        );
    }

    fn is_ranked_before(&self, other: &Self) -> (r: bool) {
        precedes(self.as_str(), other.as_str())
    }
}

/// What a sequence of texts stands for.
pub open spec fn views(texts: Seq<String>) -> Seq<Seq<char>> {
    Seq::new(texts.len(), |i: int| texts[i]@)
}

/// `list` holds each text of `source` once and no other text, in the order of
/// texts.
pub open spec fn lists_texts(list: Seq<String>, source: Seq<Seq<char>>) -> bool {
    &&& in_rank_order(list)
    &&& forall|i: int, j: int|
        #![trigger list[i], list[j]]
        0 <= i < j < list.len() ==> list[i]@ != list[j]@
    &&& forall|i: int| 0 <= i < list.len() ==> source.contains((#[trigger] list[i])@)
    &&& forall|k: int| 0 <= k < source.len() ==> views(list).contains(#[trigger] source[k])
}

/// The texts of `texts`, each once, in the order of texts.
pub fn distinct_texts(texts: &Vec<String>) -> (r: Vec<String>)
    ensures
        lists_texts(r@, views(texts@)),
{
    let ghost source = views(texts@);
    let mut list: Vec<String> = Vec::new();
    let mut k: usize = 0;
    while k < texts.len()
        invariant
            k <= texts.len(),
            source == views(texts@),
            lists_texts(list@, source.take(k as int)),
        decreases texts.len() - k,
    {
        let text: &String = &texts[k];
        let ghost before = list@;
        let ghost seen = source.take(k as int);
        let ghost longer = source.take(k as int + 1);
        let mut at: usize = 0;
        while at < list.len() && !(list[at] == *text)
            invariant
                at <= list@.len(),
                list@ == before,
                forall|a: int| 0 <= a < at ==> (#[trigger] list@[a])@ != text@,
            decreases list@.len() - at,
        {
            at = at + 1;
        }
        proof {
            assert(longer =~= seen.push(text@));
            assert forall|i: int| 0 <= i < before.len() implies longer.contains(
                (#[trigger] before[i])@,
            ) by {
                let n = choose|n: int| 0 <= n < seen.len() && seen[n] == before[i]@;
                assert(longer[n] == before[i]@);
            }
        }
        if at < list.len() {
            proof {
                assert forall|n: int| 0 <= n < longer.len() implies views(before).contains(
                    #[trigger] longer[n],
                ) by {
                    if n == k {
                        assert(views(before)[at as int] == text@);
                    } else {
                        assert(longer[n] == seen[n]);
                    }
                }
            }
        } else {
            let position: usize = insert_in_rank(&mut list, text.clone());
            proof {
                before.insert_ensures(position as int, list@[position as int]);
                assert forall|i: int, j: int|
                    #![trigger list@[i], list@[j]]
                    0 <= i < j < list@.len() implies list@[i]@ != list@[j]@ by {
                    let a = if i < position {
                        i
                    } else {
                        i - 1
                    };
                    let b = if j < position {
                        j
                    } else {
                        j - 1
                    };
                    if i == position {
                        assert(list@[j] == before[b]);
                    } else if j == position {
                        assert(list@[i] == before[a]);
                    } else {
                        assert(list@[i] == before[a] && list@[j] == before[b]);
                    }
                }
                assert forall|i: int| 0 <= i < list@.len() implies longer.contains(
                    (#[trigger] list@[i])@,
                ) by {
                    if i == position {
                        assert(longer[k as int] == text@);
                    } else {
                        let a = if i < position {
                            i
                        } else {
                            i - 1
                        };
                        assert(list@[i] == before[a]);
                    }
                }
                assert forall|n: int| 0 <= n < longer.len() implies views(list@).contains(
                    #[trigger] longer[n],
                ) by {
                    if n == k {
                        assert(views(list@)[position as int] == text@);
                    } else {
                        assert(longer[n] == seen[n]);
                        let a = choose|a: int|
                            0 <= a < views(before).len() && views(before)[a] == seen[n];
                        if a < position {
                            assert(list@[a] == before[a]);
                            assert(views(list@)[a] == seen[n]);
                        } else {
                            assert(list@[a + 1] == before[a]);
                            assert(views(list@)[a + 1] == seen[n]);
                        }
                    }
                }
            }
        }
        k = k + 1;
    }
    proof {
        assert(source.take(k as int) =~= source);
    }
    list
}

/// The character of a decimal digit.
pub open spec fn digit_char(digit: int) -> char {
    if digit == 0 {
        '0'
    } else if digit == 1 {
        '1'
    } else if digit == 2 {
        '2'
    } else if digit == 3 {
        '3'
    } else if digit == 4 {
        '4'
    } else if digit == 5 {
        '5'
    } else if digit == 6 {
        '6'
    } else if digit == 7 {
        '7'
    } else if digit == 8 {
        '8'
    } else {
        '9'
    }
}

/// A natural number in decimal digits, without leading zeros.
pub open spec fn decimal_text(n: nat) -> Seq<char>
    decreases n,
{
    if n < 10 {
        seq![digit_char(n as int)]
    } else {
        decimal_text(n / 10).push(digit_char((n % 10) as int))
    }
}

/// A number of hundredths as a decimal number with two places: a minus sign
/// where it is negative, the whole part, a point, and the two places.
pub open spec fn hundredths_text(value: int) -> Seq<char> {
    let magnitude = if value < 0 {
        -value
    } else {
        value
    };
    let sign = if value < 0 {
        seq!['-']
    } else {
        Seq::<char>::empty()
    };
    sign + decimal_text((magnitude / 100) as nat) + seq![
        '.',
        digit_char(magnitude % 100 / 10),
        digit_char(magnitude % 10),
    ]
}

/// Writes one decimal digit at the end of `text`.
pub fn append_digit(text: &mut String, digit: u8)
    requires
        digit < 10,
    ensures
        final(text)@ == old(text)@.push(digit_char(digit as int)),
{
    proof {
        reveal_strlit("0");
        reveal_strlit("1");
        reveal_strlit("2");
        reveal_strlit("3");
        reveal_strlit("4");
        reveal_strlit("5");
        reveal_strlit("6");
        reveal_strlit("7");
        reveal_strlit("8");
        reveal_strlit("9");
    }
    let ghost before = text@;
    if digit == 0 {
        text.append("0");
        proof {
            assert(text@ =~= before.push('0'));
        }
    } else if digit == 1 {
        text.append("1");
        proof {
            assert(text@ =~= before.push('1'));
        }
    } else if digit == 2 {
        text.append("2");
        proof {
            assert(text@ =~= before.push('2'));
        }
    } else if digit == 3 {
        text.append("3");
        proof {
            assert(text@ =~= before.push('3'));
        }
    } else if digit == 4 {
        text.append("4");
        proof {
            assert(text@ =~= before.push('4'));
        }
    } else if digit == 5 {
        text.append("5");
        proof {
            assert(text@ =~= before.push('5'));
        }
    } else if digit == 6 {
        text.append("6");
        proof {
            assert(text@ =~= before.push('6'));
        }
    } else if digit == 7 {
        text.append("7");
        proof {
            assert(text@ =~= before.push('7'));
        }
    } else if digit == 8 {
        text.append("8");
        proof {
            assert(text@ =~= before.push('8'));
        }
    } else {
        text.append("9");
        proof {
            assert(text@ =~= before.push('9'));
        }
    }
}

/// Writes `n` in decimal digits at the end of `text`.
pub fn append_number(text: &mut String, n: u128)
    ensures
        final(text)@ == old(text)@ + decimal_text(n as nat),
    decreases n,
{
    let ghost before = text@;
    if n >= 10 {
        append_number(text, n / 10);
    }
    append_digit(text, (n % 10) as u8);
    proof {
        if n >= 10 {
            assert(text@ =~= before + decimal_text(n as nat));
        } else {
            assert(text@ =~= before + decimal_text(n as nat));
        }
    }
}

/// Writes a number of hundredths at the end of `text`, as a decimal number
/// with two places.
pub fn append_hundredths(text: &mut String, value: i128)
    ensures
        final(text)@ == old(text)@ + hundredths_text(value as int),
{
    proof {
        reveal_strlit("-");
        reveal_strlit(".");
    }
    let ghost before = text@;
    let magnitude: u128 = if value < 0 {
        if value == i128::MIN {
            0x8000_0000_0000_0000_0000_0000_0000_0000
        } else {
            (-value) as u128
        }
    } else {
        value as u128
    };
    if value < 0 {
        text.append("-");
    }
    let ghost signed = text@;
    append_number(text, magnitude / 100);
    text.append(".");
    let ghost pointed = text@;
    append_digit(text, (magnitude % 100 / 10) as u8);
    append_digit(text, (magnitude % 10) as u8);
    proof {
        let sign = if value < 0 {
            seq!['-']
        } else {
            Seq::<char>::empty()
        };
        assert(signed =~= before + sign);
        assert(pointed =~= signed + decimal_text((magnitude / 100) as nat) + seq!['.']);
        assert(text@ =~= before + hundredths_text(value as int));
    }
}

/// A whole number in decimal digits, with a minus sign where it is negative.
pub open spec fn integer_text(value: int) -> Seq<char> {
    if value < 0 {
        seq!['-'] + decimal_text((-value) as nat)
    } else {
        decimal_text(value as nat)
    }
}

/// A whole number as text.
pub fn integer(value: i64) -> (r: String)
    ensures
        r@ == integer_text(value as int),
{
    proof {
        reveal_strlit("-");
    }
    let mut text: String = String::new();
    if value < 0 {
        text.append("-");
        let magnitude: u128 = (-(value as i128)) as u128;
        append_number(&mut text, magnitude);
        proof {
            assert(text@ =~= integer_text(value as int));
        }
    } else {
        append_number(&mut text, value as u128);
        proof {
            assert(text@ =~= integer_text(value as int));
        }
    }
    text
}

} // verus!
