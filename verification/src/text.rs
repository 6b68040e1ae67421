//! Verified text utilities of the vault: the byte-order comparison the
//! entry listing is sorted by, the ASCII-case-insensitive substring
//! match the search uses, and the shape check for stored timestamps.

use vstd::prelude::*;

verus! {

/// Lexicographic order on texts by Unicode scalar value, the order the
/// entry listing is sorted by.  `a` is less than or equal to `b`.
pub open spec fn lex_leq(a: Seq<char>, b: Seq<char>) -> bool
    decreases a.len(),
{
    if a.len() == 0 {
        true
    } else if b.len() == 0 {
        false
    } else if (a[0] as u32) < (b[0] as u32) {
        true
    } else if (a[0] as u32) > (b[0] as u32) {
        false
    } else {
        lex_leq(a.drop_first(), b.drop_first())
    }
}

/// The order is total: of two texts, one is less than or equal to the other.
pub proof fn lemma_lex_leq_total(a: Seq<char>, b: Seq<char>)
    ensures
        lex_leq(a, b) || lex_leq(b, a),
    decreases a.len(),
{
    if a.len() > 0 && b.len() > 0 && (a[0] as u32) == (b[0] as u32) {
        lemma_lex_leq_total(a.drop_first(), b.drop_first());
    }
}

/// The order is transitive.
pub proof fn lemma_lex_leq_trans(a: Seq<char>, b: Seq<char>, c: Seq<char>)
    requires
        lex_leq(a, b),
        lex_leq(b, c),
    ensures
        lex_leq(a, c),
    decreases a.len(),
{
    if a.len() == 0 || b.len() == 0 || c.len() == 0 {
    } else if (a[0] as u32) == (b[0] as u32) && (b[0] as u32) == (c[0] as u32) {
        lemma_lex_leq_trans(a.drop_first(), b.drop_first(), c.drop_first());
    }
}

/// Compare two texts in the [`lex_leq`] order.
pub fn str_leq(a: &str, b: &str) -> (r: bool)
    ensures
        r == lex_leq(a@, b@),
{
    let na = a.unicode_len();
    let nb = b.unicode_len();
    let mut i: usize = 0;
    proof {
        assert(a@.skip(0) =~= a@);
        assert(b@.skip(0) =~= b@);
    }
    loop
        invariant
            i <= na,
            i <= nb,
            na == a@.len(),
            nb == b@.len(),
            lex_leq(a@, b@) == lex_leq(a@.skip(i as int), b@.skip(i as int)),
        decreases na - i,
    {
        if i == na {
            assert(a@.skip(i as int).len() == 0);
            return true;
        }
        if i == nb {
            assert(a@.skip(i as int).len() > 0 && b@.skip(i as int).len() == 0);
            return false;
        }
        let ca = a.get_char(i);
        let cb = b.get_char(i);
        proof {
            assert(a@.skip(i as int)[0] == a@[i as int]);
            assert(b@.skip(i as int)[0] == b@[i as int]);
        }
        if (ca as u32) < (cb as u32) {
            return true;
        }
        if (ca as u32) > (cb as u32) {
            return false;
        }
        proof {
            assert(a@.skip(i as int).drop_first() =~= a@.skip(i + 1));
            assert(b@.skip(i as int).drop_first() =~= b@.skip(i + 1));
        }
        i = i + 1;
    }
}

/// The scalar value a character counts as under ASCII case folding:
/// `A`..`Z` fold onto `a`..`z`, all else stands as it is.
pub open spec fn lower_scalar(c: char) -> int {
    if 'A' as u32 <= c as u32 <= 'Z' as u32 {
        c as u32 + 32
    } else {
        c as u32 as int
    }
}

/// Character equality up to ASCII case.
pub open spec fn chars_eq_ci(a: char, b: char) -> bool {
    lower_scalar(a) == lower_scalar(b)
}

fn char_eq_ci(a: char, b: char) -> (r: bool)
    ensures
        r == chars_eq_ci(a, b),
{
    let au = a as u32;
    let bu = b as u32;
    let la = if au >= 'A' as u32 && au <= 'Z' as u32 {
        au + 32
    } else {
        au
    };
    let lb = if bu >= 'A' as u32 && bu <= 'Z' as u32 {
        bu + 32
    } else {
        bu
    };
    la == lb
}

/// Whether the needle stands in the haystack at offset `i`, compared
/// character by character up to ASCII case.
pub open spec fn matches_at(hay: Seq<char>, needle: Seq<char>, i: int) -> bool {
    forall|k: int| 0 <= k < needle.len() ==> chars_eq_ci(hay[i + k], #[trigger] needle[k])
}

/// ASCII-case-insensitive substring containment: the match the entry
/// search applies to titles and categories.
pub open spec fn contains_ci(hay: Seq<char>, needle: Seq<char>) -> bool {
    exists|i: int| 0 <= i && i + needle.len() <= hay.len() && #[trigger] matches_at(hay, needle, i)
}

/// Whether `needle` occurs in `hay`, compared up to ASCII case.
pub fn str_contains_ci(hay: &str, needle: &str) -> (r: bool)
    ensures
        r == contains_ci(hay@, needle@),
{
    let h = hay.unicode_len();
    let n = needle.unicode_len();
    if n > h {
        return false;
    }
    let bound = h - n;
    let mut i: usize = 0;
    while i <= bound
        invariant
            n <= h,
            bound == h - n,
            h == hay@.len(),
            n == needle@.len(),
            0 <= i <= bound + 1,
            forall|x: int| 0 <= x < i ==> !#[trigger] matches_at(hay@, needle@, x),
        decreases bound + 1 - i,
    {
        let mut k: usize = 0;
        let mut all_eq = true;
        while k < n
            invariant
                n <= h,
                i <= bound,
                bound == h - n,
                h == hay@.len(),
                n == needle@.len(),
                0 <= k <= n,
                all_eq == forall|y: int|
                    0 <= y < k ==> chars_eq_ci(hay@[i + y], #[trigger] needle@[y]),
            decreases n - k,
        {
            let c = char_eq_ci(hay.get_char(i + k), needle.get_char(k));
            all_eq = all_eq && c;
            k = k + 1;
        }
        if all_eq {
            assert(matches_at(hay@, needle@, i as int));
            return true;
        }
        assert(!matches_at(hay@, needle@, i as int));
        i = i + 1;
    }
    assert forall|x: int| 0 <= x && x + needle@.len() <= hay@.len() implies !matches_at(
        hay@,
        needle@,
        x,
    ) by {
        assert(x < i);
    }
    false
}

/// A digit character.
pub open spec fn is_digit(c: char) -> bool {
    '0' as u32 <= c as u32 <= '9' as u32
}

/// The numeric value of a digit character.
pub open spec fn digit_val(c: char) -> int {
    c as u32 - '0' as u32
}

/// The offset a timestamp must close with, beginning at position `i`:
/// `Z` as the last character, or a sign and an `HH:MM` within range
/// that ends the text.
pub open spec fn offset_shape(s: Seq<char>, i: int) -> bool {
    ||| (i + 1 == s.len() && s[i] == 'Z')
    ||| ((s[i] == '+' || s[i] == '-') && i + 6 == s.len() && is_digit(s[i + 1]) && is_digit(
        s[i + 2],
    ) && s[i + 3] == ':' && is_digit(s[i + 4]) && is_digit(s[i + 5]) && digit_val(s[i + 1]) * 10
        + digit_val(s[i + 2]) <= 23 && digit_val(s[i + 4]) * 10 + digit_val(s[i + 5]) <= 59)
}

/// What may stand after the seconds, from position `from` on: either
/// the offset at once, or a point, at least one digit of a fraction,
/// and then the offset — nothing else, and nothing after it.
pub open spec fn tail_shape(s: Seq<char>, from: int) -> bool {
    ||| (from < s.len() && offset_shape(s, from))
    ||| (from < s.len() && s[from] == '.' && (exists|j: int|
        from + 1 < j < s.len() && (forall|k: int| from < k < j ==> is_digit(s[k]))
            && #[trigger] offset_shape(s, j)))
}

/// The shape of a stored timestamp: a plausible `YYYY-MM-DDTHH:MM:SS`
/// (months 1 to 12, days 1 to 31, hours below 24, minutes and seconds
/// below 60), an optional fraction of a second, and a closing offset.
pub open spec fn rfc3339_shape(s: Seq<char>) -> bool {
    s.len() >= 19 && is_digit(s[0]) && is_digit(s[1]) && is_digit(s[2]) && is_digit(s[3]) && s[4]
        == '-' && is_digit(s[5]) && is_digit(s[6]) && s[7] == '-' && is_digit(s[8]) && is_digit(
        s[9],
    ) && s[10] == 'T' && is_digit(s[11]) && is_digit(s[12]) && s[13] == ':' && is_digit(s[14])
        && is_digit(s[15]) && s[16] == ':' && is_digit(s[17]) && is_digit(s[18]) && 1 <= digit_val(
        s[5],
    ) * 10 + digit_val(s[6]) <= 12 && 1 <= digit_val(s[8]) * 10 + digit_val(s[9]) <= 31
        && digit_val(s[11]) * 10 + digit_val(s[12]) <= 23 && digit_val(s[14]) * 10 + digit_val(
        s[15],
    ) <= 59 && digit_val(s[17]) * 10 + digit_val(s[18]) <= 59 && tail_shape(s, 19)
}

fn char_is_digit(c: char) -> (r: bool)
    ensures
        r == is_digit(c),
{
    c as u32 >= '0' as u32 && c as u32 <= '9' as u32
}

fn two_digits(s: &str, i: usize) -> (r: Option<u32>)
    requires
        i + 1 < s@.len(),
        s@.len() <= usize::MAX,
    ensures
        r matches Some(v) ==> is_digit(s@[i as int]) && is_digit(s@[i + 1]) && v == digit_val(
            s@[i as int],
        ) * 10 + digit_val(s@[i + 1]),
        r is None ==> !(is_digit(s@[i as int]) && is_digit(s@[i + 1])),
{
    let c0 = s.get_char(i);
    let c1 = s.get_char(i + 1);
    if char_is_digit(c0) && char_is_digit(c1) {
        Some((c0 as u32 - '0' as u32) * 10 + (c1 as u32 - '0' as u32))
    } else {
        None
    }
}

/// Whether a stored timestamp begins with a plausible
/// `YYYY-MM-DDTHH:MM:SS` date and time.
pub fn is_rfc3339_like(s: &str) -> (r: bool)
    ensures
        r == rfc3339_shape(s@),
{
    let n = s.unicode_len();
    if n < 19 {
        return false;
    }
    if !(char_is_digit(s.get_char(0)) && char_is_digit(s.get_char(1)) && char_is_digit(
        s.get_char(2),
    ) && char_is_digit(s.get_char(3))) {
        return false;
    }
    if !(s.get_char(4) == '-' && s.get_char(7) == '-' && s.get_char(10) == 'T' && s.get_char(13)
        == ':' && s.get_char(16) == ':') {
        return false;
    }
    let month = match two_digits(s, 5) {
        Some(v) => v,
        None => {
            return false;
        },
    };
    let day = match two_digits(s, 8) {
        Some(v) => v,
        None => {
            return false;
        },
    };
    let hour = match two_digits(s, 11) {
        Some(v) => v,
        None => {
            return false;
        },
    };
    let minute = match two_digits(s, 14) {
        Some(v) => v,
        None => {
            return false;
        },
    };
    let second = match two_digits(s, 17) {
        Some(v) => v,
        None => {
            return false;
        },
    };
    if !(1 <= month && month <= 12 && 1 <= day && day <= 31 && hour <= 23 && minute <= 59
        && second <= 59) {
        return false;
    }
    // the tail: an optional fraction of a second, then the closing offset
    if n == 19 {
        return false;
    }
    if s.get_char(19) != '.' {
        let ok = is_offset_at(s, 19, n);
        proof {
            if !ok {
                assert(!tail_shape(s@, 19));
            }
        }
        return ok;
    }
    let mut j: usize = 20;
    loop
        invariant
            n == s@.len(),
            20 <= j <= n,
            forall|k: int| 20 <= k < j ==> is_digit(#[trigger] s@[k]),
        ensures
            n == s@.len(),
            20 <= j <= n,
            forall|k: int| 20 <= k < j ==> is_digit(#[trigger] s@[k]),
            j == n || !is_digit(s@[j as int]),
        decreases n - j,
    {
        if j == n {
            break ;
        }
        if !char_is_digit(s.get_char(j)) {
            break ;
        }
        j = j + 1;
    }
    if j == 20 || j == n {
        proof {
            // no digit follows the point, or the digits run to the very
            // end: no position can carry the offset
            assert forall|j1: int|
                20 < j1 < s@.len() && (forall|k: int|
                    19 < k < j1 ==> is_digit(#[trigger] s@[k])) implies !(#[trigger] offset_shape(
                s@,
                j1,
            )) by {
                if j == 20 {
                    assert(is_digit(s@[20]));
                    assert(false);
                } else {
                    assert(is_digit(s@[j1]));
                    if offset_shape(s@, j1) {
                        assert(s@[j1] == 'Z' || s@[j1] == '+' || s@[j1] == '-');
                        assert(false);
                    }
                }
            }
            assert(!tail_shape(s@, 19));
        }
        return false;
    }
    let ok = is_offset_at(s, j, n);
    proof {
        if ok {
            assert(19 + 1 < j < s@.len() && (forall|k: int|
                19 < k < j ==> is_digit(#[trigger] s@[k])) && offset_shape(s@, j as int));
            assert(tail_shape(s@, 19));
        } else {
            // the first non-digit after the point is the only place the
            // offset could begin, and it does not
            assert forall|j1: int|
                20 < j1 < s@.len() && (forall|k: int|
                    19 < k < j1 ==> is_digit(#[trigger] s@[k])) implies !(#[trigger] offset_shape(
                s@,
                j1,
            )) by {
                if j1 < j {
                    assert(is_digit(s@[j1]));
                    if offset_shape(s@, j1) {
                        assert(s@[j1] == 'Z' || s@[j1] == '+' || s@[j1] == '-');
                        assert(false);
                    }
                } else if j1 > j {
                    assert(is_digit(s@[j as int]));
                    assert(false);
                }
            }
            assert(!tail_shape(s@, 19));
        }
    }
    ok
}

fn is_offset_at(s: &str, pos: usize, n: usize) -> (r: bool)
    requires
        n == s@.len(),
        pos < n,
    ensures
        r == offset_shape(s@, pos as int),
{
    let c = s.get_char(pos);
    if c == 'Z' {
        return n - pos == 1;
    }
    if c != '+' && c != '-' {
        return false;
    }
    if n - pos != 6 {
        return false;
    }
    let hours = match two_digits(s, pos + 1) {
        Some(v) => v,
        None => {
            return false;
        },
    };
    if s.get_char(pos + 3) != ':' {
        return false;
    }
    let minutes = match two_digits(s, pos + 4) {
        Some(v) => v,
        None => {
            return false;
        },
    };
    hours <= 23 && minutes <= 59
}

/// The entry at position `a` of `idx` points at a title less than or
/// equal to the one position `b` points at.
pub open spec fn title_leq(idx: Seq<usize>, titles: Seq<String>, a: int, b: int) -> bool {
    lex_leq(titles[idx[a] as int]@, titles[idx[b] as int]@)
}

/// The indices walk the titles in ascending [`lex_leq`] order.
pub open spec fn indices_sorted_by_title(idx: Seq<usize>, titles: Seq<String>) -> bool {
    forall|a: int, b: int| 0 <= a < b < idx.len() ==> #[trigger] title_leq(idx, titles, a, b)
}

/// Sort a sequence of distinct indices into `titles` so that they walk
/// the titles in ascending [`lex_leq`] order.  The indices themselves
/// are only rearranged: none appears or disappears.
pub fn sort_indices_by_title(idx: &mut Vec<usize>, titles: &Vec<String>)
    requires
        forall|i: int| 0 <= i < old(idx)@.len() ==> old(idx)@[i] < titles@.len(),
        forall|a: int, b: int| 0 <= a < b < old(idx)@.len() ==> old(idx)@[a] != old(idx)@[b],
    ensures
        final(idx)@.len() == old(idx)@.len(),
        forall|i: int| 0 <= i < final(idx)@.len() ==> final(idx)@[i] < titles@.len(),
        forall|a: int, b: int| 0 <= a < b < final(idx)@.len() ==> final(idx)@[a] != final(idx)@[b],
        forall|a: int| 0 <= a < old(idx)@.len() ==> final(idx)@.contains(#[trigger] old(idx)@[a]),
        forall|a: int| 0 <= a < final(idx)@.len() ==> old(idx)@.contains(#[trigger] final(idx)@[a]),
        indices_sorted_by_title(final(idx)@, titles@),
{
    let len = idx.len();
    if len <= 1 {
        assert forall|a: int| 0 <= a < idx@.len() implies idx@.contains(#[trigger] idx@[a]) by {
            assert(idx@[a] == idx@[a]);
        }
        return ;
    }
    let mut i: usize = 1;
    while i < len
        invariant
            1 <= i <= len,
            idx@.len() == len,
            old(idx)@.len() == len,
            forall|k: int| 0 <= k < idx@.len() ==> idx@[k] < titles@.len(),
            forall|a: int, b: int| 0 <= a < b < idx@.len() ==> idx@[a] != idx@[b],
            forall|a: int| 0 <= a < len ==> idx@.contains(#[trigger] old(idx)@[a]),
            forall|a: int| 0 <= a < len ==> old(idx)@.contains(#[trigger] idx@[a]),
            forall|a: int, b: int| 0 <= a < b < i ==> #[trigger] title_leq(idx@, titles@, a, b),
        decreases len - i,
    {
        let mut j: usize = i;
        loop
            invariant
                0 <= j <= i < len,
                idx@.len() == len,
                old(idx)@.len() == len,
                forall|k: int| 0 <= k < idx@.len() ==> idx@[k] < titles@.len(),
                forall|a: int, b: int| 0 <= a < b < idx@.len() ==> idx@[a] != idx@[b],
                forall|a: int| 0 <= a < len ==> idx@.contains(#[trigger] old(idx)@[a]),
                forall|a: int| 0 <= a < len ==> old(idx)@.contains(#[trigger] idx@[a]),
                forall|a: int, b: int|
                    0 <= a < b <= i && a != j && b != j ==> #[trigger] title_leq(
                        idx@,
                        titles@,
                        a,
                        b,
                    ),
                forall|b: int| j < b <= i ==> #[trigger] title_leq(idx@, titles@, j as int, b),
            ensures
                0 <= j <= i < len,
                idx@.len() == len,
                old(idx)@.len() == len,
                forall|k: int| 0 <= k < idx@.len() ==> idx@[k] < titles@.len(),
                forall|a: int, b: int| 0 <= a < b < idx@.len() ==> idx@[a] != idx@[b],
                forall|a: int| 0 <= a < len ==> idx@.contains(#[trigger] old(idx)@[a]),
                forall|a: int| 0 <= a < len ==> old(idx)@.contains(#[trigger] idx@[a]),
                forall|a: int, b: int|
                    0 <= a < b <= i && a != j && b != j ==> #[trigger] title_leq(
                        idx@,
                        titles@,
                        a,
                        b,
                    ),
                forall|b: int| j < b <= i ==> #[trigger] title_leq(idx@, titles@, j as int, b),
                j == 0 || title_leq(idx@, titles@, j - 1, j as int),
            decreases j,
        {
            if j == 0 {
                break ;
            }
            let x = idx[j - 1];
            let y = idx[j];
            if str_leq(titles[x].as_str(), titles[y].as_str()) {
                break ;
            }
            proof {
                lemma_lex_leq_total(titles@[x as int]@, titles@[y as int]@);
            }
            let ghost before = idx@;
            idx.set(j - 1, y);
            idx.set(j, x);
            proof {
                let after = idx@;
                assert(after =~= before.update(j - 1, y).update(j as int, x));
                assert forall|a: int| 0 <= a < len implies after.contains(
                    #[trigger] old(idx)@[a],
                ) by {
                    let v = old(idx)@[a];
                    let k = choose|k: int| 0 <= k < len && before[k] == v;
                    if k == j - 1 {
                        assert(after[j as int] == v);
                    } else if k == j {
                        assert(after[j - 1] == v);
                    } else {
                        assert(after[k] == v);
                    }
                }
                assert forall|a: int| 0 <= a < len implies old(idx)@.contains(
                    #[trigger] after[a],
                ) by {
                    if a == j - 1 {
                        assert(before[j as int] == after[a]);
                    } else if a == j {
                        assert(before[j - 1] == after[a]);
                    } else {
                        assert(before[a] == after[a]);
                    }
                }
                assert forall|a: int, b: int|
                    0 <= a < b <= i && a != j - 1 && b != j - 1 implies #[trigger] title_leq(
                    after,
                    titles@,
                    a,
                    b,
                ) by {
                    if b == j as int {
                        // the moved-down element: position a sat before j - 1 already
                        assert(after[b] == before[j - 1]);
                        assert(title_leq(before, titles@, a, j - 1));
                    } else if a == j as int {
                        assert(after[a] == before[j - 1]);
                        assert(title_leq(before, titles@, j - 1, b));
                    } else {
                        assert(title_leq(before, titles@, a, b));
                    }
                }
                assert forall|b: int| j - 1 < b <= i implies #[trigger] title_leq(
                    after,
                    titles@,
                    j - 1,
                    b,
                ) by {
                    assert(after[j - 1] == before[j as int]);
                    if b == j as int {
                        assert(lex_leq(titles@[y as int]@, titles@[x as int]@));
                    } else {
                        assert(title_leq(before, titles@, j as int, b));
                    }
                }
            }
            j = j - 1;
        }
        proof {
            assert forall|a: int, b: int| 0 <= a < b <= i implies #[trigger] title_leq(
                idx@,
                titles@,
                a,
                b,
            ) by {
                if a != j && b != j {
                } else if a == j as int {
                } else {
                    // b == j, so the exit condition orders position j - 1 before j
                    assert(j > 0);
                    if a < j - 1 {
                        assert(title_leq(idx@, titles@, a, j - 1));
                        lemma_lex_leq_trans(
                            titles@[idx@[a] as int]@,
                            titles@[idx@[j - 1] as int]@,
                            titles@[idx@[j as int] as int]@,
                        );
                    }
                }
            }
        }
        i = i + 1;
    }
}

/// Whether two texts hold the same characters.
pub fn str_eq(a: &str, b: &str) -> (r: bool)
    ensures
        r == (a@ == b@),
{
    let na = a.unicode_len();
    let nb = b.unicode_len();
    if na != nb {
        return false;
    }
    let mut i: usize = 0;
    while i < na
        invariant
            na == a@.len(),
            nb == b@.len(),
            na == nb,
            0 <= i <= na,
            forall|k: int| 0 <= k < i ==> a@[k] == b@[k],
        decreases na - i,
    {
        if a.get_char(i) != b.get_char(i) {
            return false;
        }
        i = i + 1;
    }
    proof {
        assert(a@ =~= b@);
    }
    true
}

} // verus!
