//! Network addresses as text.
//!
//! An address of four octets is written in decimal with dots. One of eight groups is written in
//! hexadecimal with colons; one run of groups that are zero may be left out, and the last two
//! groups may be written as four octets.
use crate::text::chars_of;
use vstd::prelude::*;

verus! {

/// A network address.
#[derive(Debug, Clone, Copy, PartialEq, Eq, Structural)]
pub enum IpAddr {
    /// Four octets, the first the most significant.
    V4(u32),
    /// Eight groups, the first the most significant.
    V6(u128),
}

/// The parts of a text between separators, of which `part` was already read of the first.
pub open spec fn split_from(s: Seq<char>, sep: char, part: Seq<char>) -> Seq<Seq<char>>
    decreases s.len(),
{
    if s.len() == 0 {
        seq![part]
    } else if s[0] == sep {
        seq![part] + split_from(s.skip(1), sep, Seq::empty())
    } else {
        split_from(s.skip(1), sep, part.push(s[0]))
    }
}

/// The parts of a text between separators.
pub open spec fn split_on(s: Seq<char>, sep: char) -> Seq<Seq<char>> {
    split_from(s, sep, Seq::empty())
}

/// The characters of each part.
pub open spec fn parts_shown(parts: Seq<Vec<char>>) -> Seq<Seq<char>> {
    Seq::new(parts.len(), |i: int| parts[i]@)
}

/// The parts of a text between separators.
pub(crate) fn split(s: &Vec<char>, sep: char) -> (r: Vec<Vec<char>>)
    ensures
        parts_shown(r@) == split_on(s@, sep),
        r@.len() > 0,
{
    let mut parts: Vec<Vec<char>> = Vec::new();
    let mut part: Vec<char> = Vec::new();
    let mut i: usize = 0;
    assert(s@.skip(0) =~= s@);
    assert(parts_shown(parts@) + split_from(s@, sep, part@) =~= split_on(s@, sep));
    while i < s.len()
        invariant
            i <= s@.len(),
            parts_shown(parts@) + split_from(s@.skip(i as int), sep, part@) == split_on(s@, sep),
        decreases s.len() - i,
    {
        let c = s[i];
        let ghost before = parts_shown(parts@);
        let ghost read = part@;
        assert(s@.skip(i as int)[0] == c);
        assert(s@.skip(i as int).skip(1) =~= s@.skip(i + 1));
        if c == sep {
            let mut full: Vec<char> = Vec::new();
            std::mem::swap(&mut full, &mut part);
            parts.push(full);
            assert(part@ =~= Seq::<char>::empty());
            assert(parts_shown(parts@) =~= before.push(read));
            assert(parts_shown(parts@) + split_from(s@.skip(i + 1), sep, part@) =~= before + split_from(
                s@.skip(i as int),
                sep,
                read,
            ));
        } else {
            part.push(c);
        }
        i = i + 1;
    }
    let ghost before = parts_shown(parts@);
    let ghost read = part@;
    parts.push(part);
    assert(parts_shown(parts@) =~= before + seq![read]);
    parts
}

/// The value of a hexadecimal digit.
pub open spec fn hex_value(c: char) -> Option<nat> {
    if '0' <= c <= '9' {
        Some((c as int - '0' as int) as nat)
    } else if 'a' <= c <= 'f' {
        Some((c as int - 'a' as int + 10) as nat)
    } else if 'A' <= c <= 'F' {
        Some((c as int - 'A' as int + 10) as nat)
    } else {
        None
    }
}

/// The number that digits of a base stand for, where each is a digit of it.
pub open spec fn number_of(s: Seq<char>, base: nat) -> Option<nat>
    decreases s.len(),
{
    if s.len() == 0 {
        Some(0)
    } else {
        match (number_of(s.drop_last(), base), hex_value(s.last())) {
            (Some(n), Some(d)) => if d < base {
                Some(n * base + d)
            } else {
                None
            },
            _ => None,
        }
    }
}

/// An octet: one to three decimal digits without a leading zero, at most 255.
pub open spec fn octet_of(s: Seq<char>) -> Option<nat> {
    if 1 <= s.len() <= 3 && (s.len() > 1 ==> s[0] != '0') && number_of(s, 10) is Some && number_of(s, 10)->Some_0 <= 255 {
        number_of(s, 10)
    } else {
        None
    }
}

/// A group: one to four hexadecimal digits.
pub open spec fn group_of(s: Seq<char>) -> Option<nat> {
    if 1 <= s.len() <= 4 {
        number_of(s, 16)
    } else {
        None
    }
}

/// The address of four octets that a text stands for.
pub open spec fn v4_of(s: Seq<char>) -> Option<nat> {
    let parts = split_on(s, '.');
    if parts.len() != 4 {
        None
    } else {
        match (octet_of(parts[0]), octet_of(parts[1]), octet_of(parts[2]), octet_of(parts[3])) {
            (Some(a), Some(b), Some(c), Some(d)) => Some(a * 0x100_0000 + b * 0x1_0000 + c * 0x100 + d),
            _ => None,
        }
    }
}

/// Groups that are written one by one.
pub open spec fn plain_groups(parts: Seq<Seq<char>>) -> Option<Seq<nat>>
    decreases parts.len(),
{
    if parts.len() == 0 {
        Some(Seq::empty())
    } else {
        match (plain_groups(parts.drop_last()), group_of(parts.last())) {
            (Some(gs), Some(g)) => Some(gs.push(g)),
            _ => None,
        }
    }
}

/// The groups of a text, of which the last two may be written as four octets.
pub open spec fn groups_of(s: Seq<char>, octets_allowed: bool) -> Option<Seq<nat>> {
    let parts = split_on(s, ':');
    if s.len() == 0 {
        Some(Seq::empty())
    } else if plain_groups(parts) is Some {
        plain_groups(parts)
    } else if octets_allowed {
        match (plain_groups(parts.drop_last()), v4_of(parts.last())) {
            (Some(gs), Some(v)) => Some(gs.push(v / 0x1_0000).push(v % 0x1_0000)),
            _ => None,
        }
    } else {
        None
    }
}

/// Whether two colons stand at a place.
pub open spec fn gap_at(s: Seq<char>, i: int) -> bool {
    0 <= i < s.len() - 1 && s[i] == ':' && s[i + 1] == ':'
}

/// The first place from some place on where two colons stand; the length where they do not.
pub open spec fn gap_from(s: Seq<char>, i: int) -> int
    decreases s.len() - i,
{
    if i < 0 || i >= s.len() || gap_at(s, i) {
        i
    } else {
        gap_from(s, i + 1)
    }
}

/// Groups as a number, the first the most significant.
pub open spec fn groups_value(gs: Seq<nat>) -> nat
    decreases gs.len(),
{
    if gs.len() == 0 {
        0
    } else {
        groups_value(gs.drop_last()) * 0x1_0000 + gs.last()
    }
}

/// As many groups that are zero as are asked for.
pub open spec fn zeros(n: nat) -> Seq<nat> {
    Seq::new(n, |i: int| 0nat)
}

/// The groups of an address: eight as they are written, or fewer with zeros where two colons
/// stand.
pub open spec fn all_groups(s: Seq<char>) -> Option<Seq<nat>> {
    let at = gap_from(s, 0);
    if at >= s.len() {
        match groups_of(s, true) {
            Some(gs) => if gs.len() == 8 {
                Some(gs)
            } else {
                None
            },
            None => None,
        }
    } else {
        match (groups_of(s.take(at), false), groups_of(s.skip(at + 2), true)) {
            (Some(head), Some(tail)) => if head.len() + tail.len() <= 7 {
                Some(head + zeros((8 - head.len() - tail.len()) as nat) + tail)
            } else {
                None
            },
            _ => None,
        }
    }
}

/// The address of eight groups that a text stands for.
pub open spec fn v6_of(s: Seq<char>) -> Option<nat> {
    match all_groups(s) {
        Some(gs) => Some(groups_value(gs)),
        None => None,
    }
}

fn hex_digit_value(c: char) -> (r: Option<u32>)
    ensures
        r is Some <==> hex_value(c) is Some,
        r matches Some(d) ==> hex_value(c) == Some(d as nat) && d < 16,
{
    if '0' <= c && c <= '9' {
        Some(c as u32 - '0' as u32)
    } else if 'a' <= c && c <= 'f' {
        Some(c as u32 - 'a' as u32 + 10)
    } else if 'A' <= c && c <= 'F' {
        Some(c as u32 - 'A' as u32 + 10)
    } else {
        None
    }
}

/// The number that a few digits of a base stand for.
fn read_number(s: &Vec<char>, base: u32) -> (r: Option<u32>)
    requires
        s@.len() <= 4,
        base == 10 || base == 16,
    ensures
        match r {
            Some(n) => number_of(s@, base as nat) == Some(n as nat) && n < 0x1_0000,
            None => number_of(s@, base as nat) is None,
        },
{
    let mut n: u32 = 0;
    let mut i: usize = 0;
    while i < s.len()
        invariant
            s@.len() <= 4,
            base == 10 || base == 16,
            i <= s@.len(),
            number_of(s@.take(i as int), base as nat) == Some(n as nat),
            i == 0 ==> n < 1,
            i == 1 ==> n < 16,
            i == 2 ==> n < 256,
            i == 3 ==> n < 4096,
            i == 4 ==> n < 65536,
        decreases s.len() - i,
    {
        let ghost now = s@.take(i + 1);
        assert(now.drop_last() =~= s@.take(i as int));
        assert(now.last() == s@[i as int]);
        match hex_digit_value(s[i]) {
            Some(d) => {
                if d >= base {
                    proof {
                        lemma_bad_prefix(s@, (i + 1) as int, base as nat);
                    }
                    return None;
                }
                n = n * base + d;
            },
            None => {
                proof {
                    lemma_bad_prefix(s@, (i + 1) as int, base as nat);
                }
                return None;
            },
        }
        i = i + 1;
    }
    assert(s@.take(s@.len() as int) =~= s@);
    Some(n)
}

proof fn lemma_bad_prefix(s: Seq<char>, n: int, base: nat)
    requires
        0 <= n <= s.len(),
        number_of(s.take(n), base) is None,
    ensures
        number_of(s, base) is None,
    decreases s.len() - n,
{
    if n < s.len() {
        assert(s.take(n + 1).drop_last() =~= s.take(n));
        lemma_bad_prefix(s, n + 1, base);
    } else {
        assert(s.take(n) =~= s);
    }
}

fn read_octet(s: &Vec<char>) -> (r: Option<u32>)
    ensures
        match r {
            Some(n) => octet_of(s@) == Some(n as nat) && n <= 255,
            None => octet_of(s@) is None,
        },
{
    if s.len() < 1 || s.len() > 3 {
        return None;
    }
    if s.len() > 1 && s[0] == '0' {
        return None;
    }
    match read_number(s, 10) {
        Some(n) => if n <= 255 {
            Some(n)
        } else {
            None
        },
        None => None,
    }
}

fn read_group(s: &Vec<char>) -> (r: Option<u32>)
    ensures
        match r {
            Some(n) => group_of(s@) == Some(n as nat) && n < 0x1_0000,
            None => group_of(s@) is None,
        },
{
    if s.len() < 1 || s.len() > 4 {
        return None;
    }
    read_number(s, 16)
}

/// The address of four octets that characters stand for.
fn read_v4(s: &Vec<char>) -> (r: Option<u32>)
    ensures
        match r {
            Some(n) => v4_of(s@) == Some(n as nat),
            None => v4_of(s@) is None,
        },
{
    let parts = split(s, '.');
    let ghost shown = split_on(s@, '.');
    assert(shown.len() == parts@.len());
    if parts.len() != 4 {
        return None;
    }
    assert(shown[0] == parts@[0]@ && shown[1] == parts@[1]@ && shown[2] == parts@[2]@ && shown[3] == parts@[3]@);
    match (read_octet(&parts[0]), read_octet(&parts[1]), read_octet(&parts[2]), read_octet(&parts[3])) {
        (Some(a), Some(b), Some(c), Some(d)) => Some(a * 0x100_0000 + b * 0x1_0000 + c * 0x100 + d),
        _ => None,
    }
}

/// Groups as plain numbers.
spec fn groups_shown(gs: Seq<u32>) -> Seq<nat> {
    Seq::new(gs.len(), |i: int| gs[i] as nat)
}

proof fn lemma_bad_parts(parts: Seq<Seq<char>>, n: int)
    requires
        0 <= n <= parts.len(),
        plain_groups(parts.take(n)) is None,
    ensures
        plain_groups(parts) is None,
    decreases parts.len() - n,
{
    if n < parts.len() {
        assert(parts.take(n + 1).drop_last() =~= parts.take(n));
        lemma_bad_parts(parts, n + 1);
    } else {
        assert(parts.take(n) =~= parts);
    }
}

/// The first groups of a list of parts.
fn read_plain(parts: &Vec<Vec<char>>, n: usize) -> (r: Option<Vec<u32>>)
    requires
        n <= parts@.len(),
    ensures
        match r {
            Some(gs) => {
                &&& plain_groups(parts_shown(parts@).take(n as int)) == Some(groups_shown(gs@))
                &&& gs@.len() == n
                &&& forall|i: int| 0 <= i < gs@.len() ==> #[trigger] gs@[i] < 0x1_0000
            },
            None => plain_groups(parts_shown(parts@).take(n as int)) is None,
        },
{
    let ghost all = parts_shown(parts@);
    let mut gs: Vec<u32> = Vec::new();
    let mut i: usize = 0;
    assert(groups_shown(gs@) =~= Seq::<nat>::empty());
    assert(all.take(0) =~= Seq::<Seq<char>>::empty());
    while i < n
        invariant
            n <= parts@.len(),
            i <= n,
            all == parts_shown(parts@),
            gs@.len() == i,
            plain_groups(all.take(i as int)) == Some(groups_shown(gs@)),
            forall|j: int| 0 <= j < gs@.len() ==> #[trigger] gs@[j] < 0x1_0000,
        decreases n - i,
    {
        let ghost before = groups_shown(gs@);
        assert(all.take(i + 1).drop_last() =~= all.take(i as int));
        assert(all.take(i + 1).last() == parts@[i as int]@);
        match read_group(&parts[i]) {
            Some(g) => {
                gs.push(g);
                assert(groups_shown(gs@) =~= before.push(g as nat));
            },
            None => {
                proof {
                    assert(all.take(n as int).take(i + 1) =~= all.take(i + 1));
                    lemma_bad_parts(all.take(n as int), i + 1);
                }
                return None;
            },
        }
        i = i + 1;
    }
    Some(gs)
}

/// The groups of characters, of which the last two may be written as four octets.
fn read_groups(s: &Vec<char>, octets_allowed: bool) -> (r: Option<Vec<u32>>)
    ensures
        match r {
            Some(gs) => {
                &&& groups_of(s@, octets_allowed) == Some(groups_shown(gs@))
                &&& forall|i: int| 0 <= i < gs@.len() ==> #[trigger] gs@[i] < 0x1_0000
            },
            None => groups_of(s@, octets_allowed) is None,
        },
{
    if s.len() == 0 {
        let gs: Vec<u32> = Vec::new();
        assert(groups_shown(gs@) =~= Seq::<nat>::empty());
        return Some(gs);
    }
    let parts = split(s, ':');
    let n: usize = parts.len();
    let ghost all = split_on(s@, ':');
    assert(all.take(n as int) =~= all);
    assert(all.take(n - 1) =~= all.drop_last());
    assert(all.last() == parts@[n - 1]@);
    match read_plain(&parts, n) {
        Some(gs) => {
            return Some(gs);
        },
        None => {},
    }
    if !octets_allowed {
        return None;
    }
    match (read_plain(&parts, n - 1), read_v4(&parts[n - 1])) {
        (Some(gs), Some(v)) => {
            let mut gs = gs;
            let ghost before = groups_shown(gs@);
            gs.push(v / 0x1_0000);
            gs.push(v % 0x1_0000);
            assert(groups_shown(gs@) =~= before.push(v as nat / 0x1_0000).push(v as nat % 0x1_0000));
            Some(gs)
        },
        _ => None,
    }
}

/// The characters of a list from one place to another.
fn slice_chars(s: &Vec<char>, from: usize, to: usize) -> (r: Vec<char>)
    requires
        from <= to <= s@.len(),
    ensures
        r@ == s@.subrange(from as int, to as int),
{
    let mut r: Vec<char> = Vec::new();
    let mut i: usize = from;
    while i < to
        invariant
            from <= i <= to <= s@.len(),
            r@ == s@.subrange(from as int, i as int),
        decreases to - i,
    {
        r.push(s[i]);
        assert(r@ =~= s@.subrange(from as int, i + 1));
        i = i + 1;
    }
    r
}

/// Eight groups as a number.
fn value_of(gs: &Vec<u32>) -> (r: u128)
    requires
        gs@.len() == 8,
        forall|i: int| 0 <= i < gs@.len() ==> #[trigger] gs@[i] < 0x1_0000,
    ensures
        r == groups_value(groups_shown(gs@)),
{
    let ghost all = groups_shown(gs@);
    let mut n: u128 = 0;
    let mut i: usize = 0;
    let mut limit: u128 = 1;
    assert(all.take(0) =~= Seq::<nat>::empty());
    while i < 8
        invariant
            i <= 8,
            gs@.len() == 8,
            all == groups_shown(gs@),
            forall|j: int| 0 <= j < gs@.len() ==> #[trigger] gs@[j] < 0x1_0000,
            n == groups_value(all.take(i as int)),
            n < limit || i == 8,
            i == 0 ==> limit == 1,
            i == 1 ==> limit == 0x1_0000,
            i == 2 ==> limit == 0x1_0000_0000,
            i == 3 ==> limit == 0x1_0000_0000_0000,
            i == 4 ==> limit == 0x1_0000_0000_0000_0000,
            i == 5 ==> limit == 0x1_0000_0000_0000_0000_0000,
            i == 6 ==> limit == 0x1_0000_0000_0000_0000_0000_0000,
            i == 7 ==> limit == 0x1_0000_0000_0000_0000_0000_0000_0000,
        decreases 8 - i,
    {
        assert(all.take(i + 1).drop_last() =~= all.take(i as int));
        assert(all.take(i + 1).last() == gs@[i as int]);
        n = n * 0x1_0000 + gs[i] as u128;
        if i < 7 {
            limit = limit * 0x1_0000;
        }
        i = i + 1;
    }
    assert(all.take(8) =~= all);
    n
}

/// The address of four octets that a text stands for.
pub fn parse_v4(s: &str) -> (r: Option<u32>)
    ensures
        match r {
            Some(n) => v4_of(s@) == Some(n as nat),
            None => v4_of(s@) is None,
        },
{
    read_v4(&chars_of(s))
}

/// The address of eight groups that a text stands for.
pub fn parse_v6(s: &str) -> (r: Option<u128>)
    ensures
        match r {
            Some(n) => v6_of(s@) == Some(n as nat),
            None => v6_of(s@) is None,
        },
{
    let chars = chars_of(s);
    let n: usize = chars.len();
    let mut at: usize = 0;
    while at < n && !(at + 1 < n && chars[at] == ':' && chars[at + 1] == ':')
        invariant
            chars@ == s@,
            n == chars@.len(),
            at <= n,
            gap_from(s@, 0) == gap_from(s@, at as int),
        decreases n - at,
    {
        at = at + 1;
    }
    assert(gap_from(s@, 0) == at);
    if at >= n {
        return match read_groups(&chars, true) {
            Some(gs) => {
                assert(groups_shown(gs@).len() == gs@.len());
                if gs.len() == 8 {
                    Some(value_of(&gs))
                } else {
                    None
                }
            },
            None => None,
        };
    }
    let left = slice_chars(&chars, 0, at);
    let right = slice_chars(&chars, at + 2, n);
    assert(left@ =~= s@.take(at as int));
    assert(right@ =~= s@.skip(at + 2));
    match (read_groups(&left, false), read_groups(&right, true)) {
        (Some(head), Some(tail)) => {
            let ghost first = groups_shown(head@);
            let ghost second = groups_shown(tail@);
            if head.len() > 7 || tail.len() > 7 || head.len() + tail.len() > 7 {
                return None;
            }
            let fill: usize = 8 - head.len() - tail.len();
            let mut gs = head;
            let mut i: usize = 0;
            while i < fill
                invariant
                    i <= fill,
                    groups_shown(gs@) == first + zeros(i as nat),
                    forall|j: int| 0 <= j < gs@.len() ==> #[trigger] gs@[j] < 0x1_0000,
                decreases fill - i,
            {
                let ghost was = groups_shown(gs@);
                gs.push(0);
                assert(groups_shown(gs@) =~= was.push(0));
                assert(first + zeros((i + 1) as nat) =~= (first + zeros(i as nat)).push(0));
                i = i + 1;
            }
            let ghost filled = groups_shown(gs@);
            let mut k: usize = 0;
            assert(filled =~= filled + second.take(0));
            while k < tail.len()
                invariant
                    k <= tail@.len(),
                    second == groups_shown(tail@),
                    groups_shown(gs@) == filled + second.take(k as int),
                    forall|j: int| 0 <= j < gs@.len() ==> #[trigger] gs@[j] < 0x1_0000,
                    forall|j: int| 0 <= j < tail@.len() ==> #[trigger] tail@[j] < 0x1_0000,
                decreases tail.len() - k,
            {
                let ghost was = groups_shown(gs@);
                gs.push(tail[k]);
                assert(groups_shown(gs@) =~= was.push(second[k as int]));
                assert(filled + second.take(k + 1) =~= (filled + second.take(k as int)).push(second[k as int]));
                k = k + 1;
            }
            assert(second.take(second.len() as int) =~= second);
            assert(groups_shown(gs@).len() == gs@.len());
            Some(value_of(&gs))
        },
        _ => None,
    }
}

/// Parts with a separator between each two.
pub open spec fn joined(parts: Seq<Seq<char>>, sep: char) -> Seq<char>
    decreases parts.len(),
{
    if parts.len() == 0 {
        Seq::empty()
    } else if parts.len() == 1 {
        parts[0]
    } else {
        parts[0] + seq![sep] + joined(parts.skip(1), sep)
    }
}

/// Whether a character does not occur in a text.
pub open spec fn is_free_of(s: Seq<char>, c: char) -> bool {
    forall|i: int| 0 <= i < s.len() ==> #[trigger] s[i] != c
}

proof fn lemma_split_plain(s: Seq<char>, sep: char, part: Seq<char>)
    requires
        is_free_of(s, sep),
    ensures
        split_from(s, sep, part) == seq![part + s],
    decreases s.len(),
{
    if s.len() == 0 {
        assert(part + s =~= part);
    } else {
        assert(s[0] != sep);
        assert forall|i: int| 0 <= i < s.skip(1).len() implies #[trigger] s.skip(1)[i] != sep by {
            assert(s[i + 1] != sep);
        }
        lemma_split_plain(s.skip(1), sep, part.push(s[0]));
        assert(part.push(s[0]) + s.skip(1) =~= part + s);
    }
}

proof fn lemma_split_next(a: Seq<char>, b: Seq<char>, sep: char, part: Seq<char>)
    requires
        is_free_of(a, sep),
    ensures
        split_from(a + seq![sep] + b, sep, part) == seq![part + a] + split_on(b, sep),
    decreases a.len(),
{
    let s = a + seq![sep] + b;
    if a.len() == 0 {
        assert(s.skip(1) =~= b);
        assert(s[0] == sep);
        assert(part + a =~= part);
    } else {
        assert(a[0] != sep);
        assert(s[0] == a[0]);
        assert(s.skip(1) =~= a.skip(1) + seq![sep] + b);
        assert forall|i: int| 0 <= i < a.skip(1).len() implies #[trigger] a.skip(1)[i] != sep by {
            assert(a[i + 1] != sep);
        }
        lemma_split_next(a.skip(1), b, sep, part.push(a[0]));
        assert(part.push(a[0]) + a.skip(1) =~= part + a);
    }
}

/// Joining parts that are free of a separator and splitting at it gives them back.
pub(crate) proof fn lemma_split_joined(parts: Seq<Seq<char>>, sep: char)
    requires
        parts.len() > 0,
        forall|i: int| 0 <= i < parts.len() ==> is_free_of(#[trigger] parts[i], sep),
    ensures
        split_on(joined(parts, sep), sep) == parts,
    decreases parts.len(),
{
    let none = Seq::<char>::empty();
    assert(none + parts[0] =~= parts[0]);
    if parts.len() == 1 {
        lemma_split_plain(parts[0], sep, none);
        assert(parts =~= seq![parts[0]]);
    } else {
        let rest = parts.skip(1);
        assert forall|i: int| 0 <= i < rest.len() implies is_free_of(#[trigger] rest[i], sep) by {
            assert(rest[i] == parts[i + 1]);
        }
        lemma_split_joined(rest, sep);
        lemma_split_next(parts[0], joined(rest, sep), sep, none);
        assert(parts =~= seq![parts[0]] + rest);
    }
}

proof fn lemma_joined_split_from(s: Seq<char>, sep: char, part: Seq<char>)
    ensures
        split_from(s, sep, part).len() > 0,
        joined(split_from(s, sep, part), sep) == part + s,
    decreases s.len(),
{
    if s.len() == 0 {
        assert(part + s =~= part);
    } else if s[0] == sep {
        let none = Seq::<char>::empty();
        let rest = split_from(s.skip(1), sep, none);
        lemma_joined_split_from(s.skip(1), sep, none);
        let all = seq![part] + rest;
        assert(all.skip(1) =~= rest);
        assert(all[0] == part);
        assert(part + seq![sep] + (none + s.skip(1)) =~= part + s);
    } else {
        lemma_joined_split_from(s.skip(1), sep, part.push(s[0]));
        assert(part.push(s[0]) + s.skip(1) =~= part + s);
    }
}

/// Splitting a text and joining its parts gives it back.
pub(crate) proof fn lemma_joined_split(s: Seq<char>, sep: char)
    ensures
        split_on(s, sep).len() > 0,
        joined(split_on(s, sep), sep) == s,
{
    lemma_joined_split_from(s, sep, Seq::empty());
    assert(Seq::<char>::empty() + s =~= s);
}

pub(crate) proof fn lemma_numeral_digits(n: nat)
    ensures
        crate::text::decimal_text(n).len() > 0,
        forall|i: int|
            0 <= i < crate::text::decimal_text(n).len() ==> '0' <= #[trigger] crate::text::decimal_text(n)[i] <= '9',
        crate::text::decimal_text(n)[0] == '0' <==> n == 0,
        n < 10 ==> crate::text::decimal_text(n).len() == 1,
        n < 100 ==> crate::text::decimal_text(n).len() <= 2,
        n < 1000 ==> crate::text::decimal_text(n).len() <= 3,
    decreases n,
{
    if n >= 10 {
        lemma_numeral_digits(n / 10);
        let front = crate::text::decimal_text(n / 10);
        assert forall|i: int|
            0 <= i < crate::text::decimal_text(n).len() implies '0' <= #[trigger] crate::text::decimal_text(n)[i] <= '9' by {
            if i < front.len() {
                assert(crate::text::decimal_text(n)[i] == front[i]);
            }
        }
        assert(crate::text::decimal_text(n)[0] == front[0]);
    }
}

pub(crate) proof fn lemma_number_of_numeral(n: nat)
    ensures
        number_of(crate::text::decimal_text(n), 10) == Some(n),
    decreases n,
{
    let s = crate::text::decimal_text(n);
    assert(s.last() == crate::text::digit(n % 10));
    assert(hex_value(s.last()) == Some(n % 10));
    if n < 10 {
        assert(s.drop_last() =~= Seq::<char>::empty());
        assert(number_of(s.drop_last(), 10) == Some(0nat));
    } else {
        lemma_number_of_numeral(n / 10);
        assert(s.drop_last() =~= crate::text::decimal_text(n / 10));
    }
}

proof fn lemma_numeral_of_number(s: Seq<char>)
    requires
        number_of(s, 10) is Some,
        s.len() > 0,
        s.len() > 1 ==> s[0] != '0',
    ensures
        s == crate::text::decimal_text(number_of(s, 10)->Some_0),
        s[0] != '0' ==> number_of(s, 10)->Some_0 > 0,
    decreases s.len(),
{
    let front = s.drop_last();
    let n = number_of(s, 10)->Some_0;
    let m = number_of(front, 10)->Some_0;
    let d = hex_value(s.last())->Some_0;
    assert(n == m * 10 + d && d < 10);
    assert(s =~= front.push(s.last()));
    if front.len() == 0 {
        assert(m == 0);
        assert(s =~= crate::text::decimal_text(n));
    } else {
        assert(front[0] == s[0]);
        lemma_numeral_of_number(front);
        assert(m > 0);
        assert(n / 10 == m && n % 10 == d);
        assert(s =~= crate::text::decimal_text(n));
    }
}

proof fn lemma_octet(s: Seq<char>, n: nat)
    ensures
        octet_of(s) == Some(n) <==> n <= 255 && s == crate::text::decimal_text(n),
{
    if octet_of(s) == Some(n) {
        lemma_numeral_of_number(s);
    }
    if n <= 255 && s == crate::text::decimal_text(n) {
        lemma_number_of_numeral(n);
        lemma_numeral_digits(n);
    }
}

/// The usual text of an address of four octets.
pub open spec fn dotted(a: nat, b: nat, c: nat, d: nat) -> Seq<char> {
    crate::text::decimal_text(a) + "."@ + crate::text::decimal_text(b) + "."@ + crate::text::decimal_text(c) + "."@
        + crate::text::decimal_text(d)
}

proof fn lemma_four_joined(p: Seq<Seq<char>>, sep: char)
    requires
        p.len() == 4,
    ensures
        joined(p, sep) == p[0] + seq![sep] + (p[1] + seq![sep] + (p[2] + seq![sep] + p[3])),
{
    let a = p.skip(1);
    let b = a.skip(1);
    let c = b.skip(1);
    assert(a[0] == p[1] && b[0] == p[2] && c[0] == p[3]);
    assert(joined(c, sep) == c[0]);
    assert(joined(b, sep) == b[0] + seq![sep] + joined(c, sep));
    assert(joined(a, sep) == a[0] + seq![sep] + joined(b, sep));
}

/// A text is read as an address of four octets exactly if it is the four of them in decimal, without
/// leading zeros and with a dot between each two.
pub proof fn law_address_of_four_octets(s: &str, r: Option<u32>, a: u8, b: u8, c: u8, d: u8)
    requires
        call_ensures(parse_v4, (s,), r),
    ensures
        s@ == dotted(a as nat, b as nat, c as nat, d as nat) ==> r is Some && r->Some_0 == a * 0x100_0000 + b * 0x1_0000
            + c * 0x100 + d,
        r matches Some(n) ==> n == a * 0x100_0000 + b * 0x1_0000 + c * 0x100 + d ==> s@ == dotted(
            a as nat,
            b as nat,
            c as nat,
            d as nat,
        ),
{
    reveal_strlit(".");
    assert("."@ =~= seq!['.']);
    let ta = crate::text::decimal_text(a as nat);
    let tb = crate::text::decimal_text(b as nat);
    let tc = crate::text::decimal_text(c as nat);
    let td = crate::text::decimal_text(d as nat);
    let texts = seq![ta, tb, tc, td];
    lemma_numeral_digits(a as nat);
    lemma_numeral_digits(b as nat);
    lemma_numeral_digits(c as nat);
    lemma_numeral_digits(d as nat);
    lemma_four_joined(texts, '.');
    assert(joined(texts, '.') =~= dotted(a as nat, b as nat, c as nat, d as nat));
    if s@ == dotted(a as nat, b as nat, c as nat, d as nat) {
        assert forall|i: int| 0 <= i < texts.len() implies is_free_of(#[trigger] texts[i], '.') by {}
        lemma_split_joined(texts, '.');
        lemma_octet(ta, a as nat);
        lemma_octet(tb, b as nat);
        lemma_octet(tc, c as nat);
        lemma_octet(td, d as nat);
    }
    if let Some(n) = r {
        if n == a * 0x100_0000 + b * 0x1_0000 + c * 0x100 + d {
            let parts = split_on(s@, '.');
            lemma_joined_split(s@, '.');
            lemma_four_joined(parts, '.');
            let (w, x, y, z) = (
                octet_of(parts[0])->Some_0,
                octet_of(parts[1])->Some_0,
                octet_of(parts[2])->Some_0,
                octet_of(parts[3])->Some_0,
            );
            lemma_octet(parts[0], w);
            lemma_octet(parts[1], x);
            lemma_octet(parts[2], y);
            lemma_octet(parts[3], z);
            assert(w == a && x == b && y == c && z == d);
            assert(parts =~= texts);
        }
    }
}

/// Whether a text is a number of 16 bits in hexadecimal, with one to four small digits.
pub open spec fn is_group_text(s: Seq<char>, g: nat) -> bool {
    &&& 1 <= s.len() <= 4
    &&& s == crate::text::hex_text(g, s.len())
    &&& s.len() == 1 ==> g < 0x10
    &&& s.len() == 2 ==> g < 0x100
    &&& s.len() == 3 ==> g < 0x1000
    &&& g < 0x1_0000
}

proof fn lemma_hex_number(g: nat, digits: nat)
    requires
        digits <= 4,
        digits == 0 ==> g < 1,
        digits == 1 ==> g < 0x10,
        digits == 2 ==> g < 0x100,
        digits == 3 ==> g < 0x1000,
        g < 0x1_0000,
    ensures
        number_of(crate::text::hex_text(g, digits), 16) == Some(g),
        crate::text::hex_text(g, digits).len() == digits,
        is_free_of(crate::text::hex_text(g, digits), ':'),
    decreases digits,
{
    let s = crate::text::hex_text(g, digits);
    if digits > 0 {
        lemma_hex_number(g / 16, (digits - 1) as nat);
        let front = crate::text::hex_text(g / 16, (digits - 1) as nat);
        assert(s.drop_last() =~= front);
        assert forall|i: int| 0 <= i < s.len() implies #[trigger] s[i] != ':' by {
            if i < front.len() {
                assert(s[i] == front[i]);
            }
        }
    }
}

proof fn lemma_plain_groups(texts: Seq<Seq<char>>, gs: Seq<nat>)
    requires
        texts.len() == gs.len(),
        forall|i: int| 0 <= i < texts.len() ==> is_group_text(#[trigger] texts[i], gs[i]),
    ensures
        plain_groups(texts) == Some(gs),
        forall|i: int| 0 <= i < texts.len() ==> is_free_of(#[trigger] texts[i], ':') && texts[i].len() > 0,
    decreases texts.len(),
{
    if texts.len() > 0 {
        let t = texts.drop_last();
        let g = gs.drop_last();
        assert forall|i: int| 0 <= i < t.len() implies is_group_text(#[trigger] t[i], g[i]) by {
            assert(is_group_text(texts[i], gs[i]));
        }
        lemma_plain_groups(t, g);
        assert(is_group_text(texts[texts.len() - 1], gs[gs.len() - 1]));
        lemma_hex_number(gs.last(), texts.last().len());
        assert(g.push(gs.last()) =~= gs);
        assert forall|i: int| 0 <= i < texts.len() implies is_free_of(#[trigger] texts[i], ':') && texts[i].len() > 0 by {
            if i < t.len() {
                assert(t[i] == texts[i]);
            }
        }
    } else {
        assert(gs =~= Seq::<nat>::empty());
    }
}

proof fn lemma_joined_without_gap(texts: Seq<Seq<char>>)
    requires
        texts.len() > 0,
        forall|i: int| 0 <= i < texts.len() ==> is_free_of(#[trigger] texts[i], ':') && texts[i].len() > 0,
    ensures
        joined(texts, ':').len() > 0,
        joined(texts, ':')[0] != ':',
        joined(texts, ':').last() != ':',
        forall|i: int| !gap_at(joined(texts, ':'), i),
    decreases texts.len(),
{
    let first = texts[0];
    assert(first[0] != ':' && first[first.len() - 1] != ':');
    let all = joined(texts, ':');
    if texts.len() == 1 {
        assert forall|i: int| !gap_at(all, i) by {
            if gap_at(all, i) {
                assert(first[i] == ':');
            }
        }
    } else {
        let rest = texts.skip(1);
        assert forall|i: int| 0 <= i < rest.len() implies is_free_of(#[trigger] rest[i], ':') && rest[i].len() > 0 by {
            assert(rest[i] == texts[i + 1]);
        }
        lemma_joined_without_gap(rest);
        let tail = joined(rest, ':');
        assert(all == first + seq![':'] + tail);
        assert forall|i: int| !gap_at(all, i) by {
            if gap_at(all, i) {
                if i < first.len() {
                    assert(all[i] == first[i]);
                } else if i == first.len() {
                    assert(all[i + 1] == tail[0]);
                } else {
                    let k = i - first.len() - 1;
                    assert(all[i] == tail[k] && all[i + 1] == tail[k + 1]);
                    assert(gap_at(tail, k));
                }
            }
        }
        assert(all[0] == first[0]);
        assert(all.last() == tail.last());
    }
}

proof fn lemma_gap_found(s: Seq<char>, from: int, at: int)
    requires
        0 <= from <= at <= s.len(),
        at < s.len() ==> gap_at(s, at),
        forall|i: int| from <= i < at ==> !gap_at(s, i),
    ensures
        gap_from(s, from) == at,
    decreases at - from,
{
    if from < at {
        assert(!gap_at(s, from));
        lemma_gap_found(s, from + 1, at);
    }
}

/// Eight numbers of 16 bits as one.
pub open spec fn eight(g: Seq<nat>) -> nat {
    g[0] * 0x1_0000_0000_0000_0000_0000_0000_0000 + g[1] * 0x1_0000_0000_0000_0000_0000_0000 + g[2]
        * 0x1_0000_0000_0000_0000_0000 + g[3] * 0x1_0000_0000_0000_0000 + g[4] * 0x1_0000_0000_0000 + g[5] * 0x1_0000_0000
        + g[6] * 0x1_0000 + g[7]
}

proof fn lemma_eight(g: Seq<nat>)
    requires
        g.len() == 8,
    ensures
        groups_value(g) == eight(g),
{
    reveal_with_fuel(groups_value, 9);
    let a = g.drop_last();
    let b = a.drop_last();
    let c = b.drop_last();
    let d = c.drop_last();
    let e = d.drop_last();
    let f = e.drop_last();
    let h = f.drop_last();
    assert(groups_value(h) == g[0]);
    assert(groups_value(f) == g[0] * 0x1_0000 + g[1]);
    assert(groups_value(e) == groups_value(f) * 0x1_0000 + g[2]);
    assert(groups_value(d) == groups_value(e) * 0x1_0000 + g[3]);
    assert(groups_value(c) == groups_value(d) * 0x1_0000 + g[4]);
    assert(groups_value(b) == groups_value(c) * 0x1_0000 + g[5]);
    assert(groups_value(a) == groups_value(b) * 0x1_0000 + g[6]);
}

/// Eight groups in hexadecimal with a colon between each two are read as their number, and fewer or more
/// are not read.
pub proof fn law_address_of_eight_groups(s: &str, r: Option<u128>, texts: Seq<Seq<char>>, gs: Seq<nat>)
    requires
        call_ensures(parse_v6, (s,), r),
        texts.len() > 0,
        texts.len() == gs.len(),
        forall|i: int| 0 <= i < texts.len() ==> is_group_text(#[trigger] texts[i], gs[i]),
        s@ == joined(texts, ':'),
    ensures
        r is Some <==> texts.len() == 8,
        r matches Some(n) ==> n == eight(gs),
{
    lemma_plain_groups(texts, gs);
    lemma_split_joined(texts, ':');
    lemma_joined_without_gap(texts);
    lemma_gap_found(s@, 0, s@.len() as int);
    if texts.len() == 8 {
        lemma_eight(gs);
    }
}

/// Where two colons stand, as many groups that are zero are left out as make it eight; at least one has
/// to be.
pub proof fn law_address_with_a_gap(
    s: &str,
    r: Option<u128>,
    head: Seq<Seq<char>>,
    first: Seq<nat>,
    tail: Seq<Seq<char>>,
    last: Seq<nat>,
)
    requires
        call_ensures(parse_v6, (s,), r),
        head.len() == first.len(),
        tail.len() == last.len(),
        forall|i: int| 0 <= i < head.len() ==> is_group_text(#[trigger] head[i], first[i]),
        forall|i: int| 0 <= i < tail.len() ==> is_group_text(#[trigger] tail[i], last[i]),
        s@ == joined(head, ':') + seq![':', ':'] + joined(tail, ':'),
    ensures
        r is Some <==> head.len() + tail.len() <= 7,
        r matches Some(n) ==> n == eight(first + Seq::new((8 - head.len() - tail.len()) as nat, |i: int| 0nat) + last),
{
    let a = joined(head, ':');
    let b = joined(tail, ':');
    let at = a.len() as int;
    lemma_plain_groups(head, first);
    lemma_plain_groups(tail, last);
    assert(s@[at] == ':' && s@[at + 1] == ':');
    if head.len() > 0 {
        lemma_joined_without_gap(head);
        lemma_split_joined(head, ':');
    }
    if tail.len() > 0 {
        lemma_joined_without_gap(tail);
        lemma_split_joined(tail, ':');
    }
    assert forall|i: int| 0 <= i < at implies !gap_at(s@, i) by {
        if gap_at(s@, i) {
            assert(s@[i] == a[i]);
            if i + 1 < at {
                assert(s@[i + 1] == a[i + 1]);
                assert(gap_at(a, i));
            } else {
                assert(a[i] == a.last());
            }
        }
    }
    lemma_gap_found(s@, 0, at);
    assert(s@.take(at) =~= a);
    assert(s@.skip(at + 2) =~= b);
    assert(head.len() == 0 ==> first =~= Seq::<nat>::empty());
    assert(tail.len() == 0 ==> last =~= Seq::<nat>::empty());
    if head.len() + tail.len() <= 7 {
        let fill = (8 - head.len() - tail.len()) as nat;
        let all = first + Seq::new(fill, |i: int| 0nat) + last;
        assert(first + zeros(fill) + last =~= all);
        lemma_eight(all);
    }
}

/// A digit in hexadecimal may be a small letter or a capital.
pub proof fn law_letters_of_either_case(d: nat)
    requires
        10 <= d < 16,
    ensures
        hex_value((0x61 + d - 10) as char) == Some(d),
        hex_value((0x41 + d - 10) as char) == Some(d),
{
}

} // verus!
