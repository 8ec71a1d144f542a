//! Framing of the sensor stream: bytes are turned into text, appended to the
//! residual buffer, and every record that a delimiter closes is reduced to its
//! value.
use vstd::prelude::*;

verus! {

/// The character that ends one record of the stream.
pub const DELIMITER: char = '%';

/// The character between a record's label and its value.
pub const SEPARATOR: char = ':';

/// What a decode pass yields: the values of the records it closed, in stream
/// order, and the text left over after the last delimiter.
pub type Frames = (Seq<Seq<char>>, Seq<char>);

/// Unicode's White_Space property, the set of characters that `str::trim` removes.
pub open spec fn is_space(c: char) -> bool {
    let u = c as u32;
    (0x9 <= u && u <= 0xd) || u == 0x20 || u == 0x85 || u == 0xa0 || u == 0x1680 || (0x2000 <= u
        && u <= 0x200a) || u == 0x2028 || u == 0x2029 || u == 0x202f || u == 0x205f || u == 0x3000
}

/// The first index at or after `i` that does not hold a space.
pub open spec fn skip_space(s: Seq<char>, i: int) -> int
    decreases s.len() - i,
{
    if 0 <= i < s.len() && is_space(s[i]) {
        skip_space(s, i + 1)
    } else {
        i
    }
}

/// The end of `s[lo..j]` once the spaces at its end are taken off.
pub open spec fn back_space(s: Seq<char>, lo: int, j: int) -> int
    decreases j - lo,
{
    if lo < j <= s.len() && is_space(s[j - 1]) {
        back_space(s, lo, j - 1)
    } else {
        j
    }
}

/// `s` without its leading and trailing spaces.
pub open spec fn trim(s: Seq<char>) -> Seq<char> {
    let a = skip_space(s, 0);
    s.subrange(a, back_space(s, a, s.len() as int))
}

/// The first index at or after `i` that holds `c`, or the length of `s`.
pub open spec fn find_from(s: Seq<char>, c: char, i: int) -> int
    decreases s.len() - i,
{
    if 0 <= i < s.len() {
        if s[i] == c {
            i
        } else {
            find_from(s, c, i + 1)
        }
    } else {
        s.len() as int
    }
}

/// The value carried by a record whose delimiter has been taken off: the text
/// after its first separator, trimmed; empty where it has no separator.
pub open spec fn value_of(body: Seq<char>) -> Seq<char> {
    let k = find_from(body, SEPARATOR, 0);
    if k < body.len() {
        trim(body.subrange(k + 1, body.len() as int))
    } else {
        Seq::empty()
    }
}

/// One character more of the stream: a delimiter closes the pending record,
/// any other character is kept for it.
pub open spec fn push_char(st: Frames, c: char) -> Frames {
    if c == DELIMITER {
        (st.0.push(value_of(st.1)), Seq::empty())
    } else {
        (st.0, st.1.push(c))
    }
}

/// The state reached from `st` once every character of `s` has come in.
pub open spec fn feed(st: Frames, s: Seq<char>) -> Frames
    decreases s.len(),
{
    if s.len() == 0 {
        st
    } else {
        push_char(feed(st, s.drop_last()), s.last())
    }
}

/// The records closed in `s` and the text after its last delimiter.
pub open spec fn frames(s: Seq<char>) -> Frames {
    feed((Seq::empty(), Seq::empty()), s)
}

/// The text that `String::from_utf8_lossy` makes of a byte sequence.
pub uninterp spec fn lossy_text(b: Seq<u8>) -> Seq<char>;

/// Every byte is below 0x80.
pub open spec fn is_ascii_bytes(b: Seq<u8>) -> bool {
    forall|i: int| 0 <= i < b.len() ==> b[i] < 0x80
}

/// The views of a sequence of strings.
pub open spec fn views(v: Seq<String>) -> Seq<Seq<char>> {
    v.map_values(|x: String| x@)
}

/// Relies on `String::from_utf8_lossy`: bytes become text, each invalid
/// sequence a replacement character; ASCII bytes stand for themselves.
#[verifier::external_body]
fn text_of(b: &[u8]) -> (r: String)
    ensures
        r@ == lossy_text(b@),
        is_ascii_bytes(b@) ==> r@.len() == b@.len() && forall|i: int|
            0 <= i < b@.len() ==> r@[i] as u32 == b@[i] as u32,
{
    String::from_utf8_lossy(b).into_owned()
}

/// Relies on `str::chars`: the characters of the text, in order.
#[verifier::external_body]
fn chars_of(s: &str) -> (r: Vec<char>)
    ensures
        r@ == s@,
{
    s.chars().collect()
}

/// Whether `c` is a space in the sense of `is_space`.
pub fn is_space_char(c: char) -> (r: bool)
    ensures
        r == is_space(c),
{
    let u = c as u32;
    (0x9 <= u && u <= 0xd) || u == 0x20 || u == 0x85 || u == 0xa0 || u == 0x1680 || (0x2000 <= u
        && u <= 0x200a) || u == 0x2028 || u == 0x2029 || u == 0x202f || u == 0x205f || u == 0x3000
}

/// `s` without its leading and trailing spaces.
pub fn trim_text(s: &str) -> (r: String)
    ensures
        r@ == trim(s@),
{
    let cs = chars_of(s);
    let n = cs.len();
    let mut a: usize = 0;
    while a < n && is_space_char(cs[a])
        invariant
            cs@ == s@,
            n == s@.len(),
            a <= n,
            skip_space(s@, 0) == skip_space(s@, a as int),
        decreases n - a,
    {
        a = a + 1;
    }
    let mut b: usize = n;
    while b > a && is_space_char(cs[b - 1])
        invariant
            cs@ == s@,
            n == s@.len(),
            a <= b <= n,
            skip_space(s@, 0) == a,
            back_space(s@, a as int, n as int) == back_space(s@, a as int, b as int),
        decreases b,
    {
        b = b - 1;
    }
    String::from_str(s.substring_char(a, b))
}

/// The value of a record whose delimiter has been taken off.
pub fn record_value(body: &str) -> (r: String)
    ensures
        r@ == value_of(body@),
{
    let cs = chars_of(body);
    let n = cs.len();
    let mut k: usize = 0;
    while k < n && cs[k] != SEPARATOR
        invariant
            cs@ == body@,
            n == body@.len(),
            k <= n,
            find_from(body@, SEPARATOR, 0) == find_from(body@, SEPARATOR, k as int),
        decreases n - k,
    {
        k = k + 1;
    }
    if k < n {
        trim_text(body.substring_char(k + 1, n))
    } else {
        String::new()
    }
}

/// Appends `text` to the residual buffer and takes out every record that a
/// delimiter closes. Returns the new residual and the records' values in
/// stream order.
pub fn decode_text(residual: &str, text: &str) -> (r: (String, Vec<String>))
    ensures
        (views(r.1@), r.0@) == frames(residual@ + text@),
        !r.0@.contains(DELIMITER),
{
    let buf = String::from_str(residual).concat(text);
    let cs = chars_of(buf.as_str());
    let n = cs.len();
    let mut values: Vec<String> = Vec::new();
    let mut start: usize = 0;
    let mut i: usize = 0;
    while i < n
        invariant
            cs@ == buf@,
            buf@ == residual@ + text@,
            n == cs@.len(),
            start <= i <= n,
            frames(cs@.subrange(0, i as int)) == (views(values@), cs@.subrange(
                start as int,
                i as int,
            )),
        decreases n - i,
    {
        let ghost before = values@;
        assert(cs@.subrange(0, i + 1).drop_last() =~= cs@.subrange(0, i as int));
        if cs[i] == DELIMITER {
            let v = record_value(buf.as_str().substring_char(start, i));
            values.push(v);
            start = i + 1;
            assert(views(values@) =~= views(before).push(v@));
            assert(cs@.subrange(start as int, i + 1) =~= Seq::<char>::empty());
        } else {
            assert(cs@.subrange(start as int, i + 1) =~= cs@.subrange(start as int, i as int).push(
                cs@[i as int],
            ));
        }
        i = i + 1;
    }
    assert(cs@.subrange(0, n as int) =~= cs@);
    proof {
        lemma_residual_undelimited(buf@);
    }
    (String::from_str(buf.as_str().substring_char(start, n)), values)
}

/// Turns `chunk` into text, replacing invalid UTF-8, appends it to the
/// residual buffer and takes out every record that a delimiter closes.
/// Returns the new residual and the records' values in stream order.
pub fn decode(residual: &str, chunk: &[u8]) -> (r: (String, Vec<String>))
    ensures
        (views(r.1@), r.0@) == frames(residual@ + lossy_text(chunk@)),
        !r.0@.contains(DELIMITER),
{
    let text = text_of(chunk);
    decode_text(residual, text.as_str())
}

/// Feeding two pieces one after the other is feeding their concatenation.
proof fn lemma_feed_append(st: Frames, s1: Seq<char>, s2: Seq<char>)
    ensures
        feed(st, s1 + s2) == feed(feed(st, s1), s2),
    decreases s2.len(),
{
    if s2.len() == 0 {
        assert(s1 + s2 =~= s1);
    } else {
        assert((s1 + s2).drop_last() =~= s1 + s2.drop_last());
        lemma_feed_append(st, s1, s2.drop_last());
    }
}

/// Text without a delimiter only joins the pending record.
proof fn lemma_feed_undelimited(st: Frames, s: Seq<char>)
    requires
        !s.contains(DELIMITER),
    ensures
        feed(st, s) == (st.0, st.1 + s),
    decreases s.len(),
{
    if s.len() == 0 {
        assert(st.1 + s =~= st.1);
    } else {
        let p = s.drop_last();
        assert(!p.contains(DELIMITER)) by {
            if p.contains(DELIMITER) {
                let i = choose|i: int| 0 <= i < p.len() && p[i] == DELIMITER;
                assert(s[i] == DELIMITER);
            }
        }
        assert(s[s.len() - 1] != DELIMITER);
        lemma_feed_undelimited(st, p);
        assert((st.1 + p).push(s.last()) =~= st.1 + s);
    }
}

/// Values already taken out stay in front of those that later text yields.
proof fn lemma_feed_values_kept(v: Seq<Seq<char>>, r: Seq<char>, s: Seq<char>)
    ensures
        feed((v, r), s) == (v + feed((Seq::empty(), r), s).0, feed((Seq::empty(), r), s).1),
    decreases s.len(),
{
    if s.len() == 0 {
        assert(v + Seq::<Seq<char>>::empty() =~= v);
    } else {
        lemma_feed_values_kept(v, r, s.drop_last());
        let q = feed((Seq::empty(), r), s.drop_last());
        assert((v + q.0).push(value_of(q.1)) =~= v + q.0.push(value_of(q.1)));
    }
}

/// The text left over by a decode pass holds no delimiter.
pub proof fn lemma_residual_undelimited(s: Seq<char>)
    ensures
        !frames(s).1.contains(DELIMITER),
    decreases s.len(),
{
    if s.len() > 0 {
        lemma_residual_undelimited(s.drop_last());
        let p = frames(s.drop_last()).1;
        if s.last() != DELIMITER {
            assert forall|i: int| 0 <= i < p.len() + 1 implies p.push(s.last())[i] != DELIMITER by {
                if i < p.len() {
                    assert(p.push(s.last())[i] == p[i]);
                }
            }
        }
    }
}

/// Decoding the text of a pending record and then more text is decoding the
/// pending record followed by that text from an empty state.
proof fn lemma_resume(r: Seq<char>, t: Seq<char>)
    requires
        !r.contains(DELIMITER),
    ensures
        frames(r + t) == feed((Seq::empty(), r), t),
{
    lemma_feed_append((Seq::empty(), Seq::empty()), r, t);
    lemma_feed_undelimited((Seq::empty(), Seq::empty()), r);
    assert(Seq::<char>::empty() + r =~= r);
}

/// A chunk whose text holds no delimiter closes no record: it joins the
/// residual buffer as it is.
pub proof fn law_undelimited_chunk(r: Seq<char>, b: Seq<u8>)
    requires
        !r.contains(DELIMITER),
        !lossy_text(b).contains(DELIMITER),
    ensures
        frames(r + lossy_text(b)) == (Seq::<Seq<char>>::empty(), r + lossy_text(b)),
{
    let s = r + lossy_text(b);
    assert(!s.contains(DELIMITER)) by {
        if s.contains(DELIMITER) {
            let i = choose|i: int| 0 <= i < s.len() && s[i] == DELIMITER;
            if i < r.len() {
                assert(r[i] == DELIMITER);
            } else {
                assert(lossy_text(b)[i - r.len()] == DELIMITER);
            }
        }
    }
    lemma_feed_undelimited((Seq::empty(), Seq::empty()), s);
    assert(Seq::<char>::empty() + s =~= s);
}

/// Framing does not depend on where the text was split: decoding `t1` and
/// then `t2` from the residual that the first pass left yields the values of
/// decoding `t1 + t2` at once, and the same residual.
pub proof fn law_split_text(r: Seq<char>, t1: Seq<char>, t2: Seq<char>)
    ensures
        frames(r + t1).0 + frames(frames(r + t1).1 + t2).0 == frames(r + (t1 + t2)).0,
        frames(frames(r + t1).1 + t2).1 == frames(r + (t1 + t2)).1,
{
    let first = frames(r + t1);
    assert(r + (t1 + t2) =~= (r + t1) + t2);
    lemma_feed_append((Seq::empty(), Seq::empty()), r + t1, t2);
    lemma_feed_values_kept(first.0, first.1, t2);
    lemma_residual_undelimited(r + t1);
    lemma_resume(first.1, t2);
}

/// The same for bytes: a chunk split in two where the split falls between
/// two characters (the two halves' texts make the whole's text) yields what
/// the whole chunk yields.
pub proof fn law_split_chunk(r: Seq<char>, b: Seq<u8>, k: int)
    requires
        0 <= k <= b.len(),
        lossy_text(b.subrange(0, k)) + lossy_text(b.subrange(k, b.len() as int)) == lossy_text(b),
    ensures
        ({
            let first = frames(r + lossy_text(b.subrange(0, k)));
            let second = frames(first.1 + lossy_text(b.subrange(k, b.len() as int)));
            first.0 + second.0 == frames(r + lossy_text(b)).0 && second.1 == frames(
                r + lossy_text(b),
            ).1
        }),
{
    law_split_text(r, lossy_text(b.subrange(0, k)), lossy_text(b.subrange(k, b.len() as int)));
}

/// The first separator at or after `i` is the one at `j`.
proof fn lemma_find_from(s: Seq<char>, c: char, i: int, j: int)
    requires
        0 <= i <= j < s.len(),
        s[j] == c,
        forall|m: int| i <= m < j ==> s[m] != c,
    ensures
        find_from(s, c, i) == j,
    decreases j - i,
{
    if i < j {
        lemma_find_from(s, c, i + 1, j);
    }
}

/// A record `label:42` completed by its delimiter, after a pending text that
/// holds neither delimiter nor separator, yields the value `42` and leaves
/// nothing pending.
pub proof fn law_labelled_reading(r: Seq<char>)
    requires
        !r.contains(DELIMITER),
        !r.contains(SEPARATOR),
    ensures
        frames(r + seq!['l', 'a', 'b', 'e', 'l', ':', '4', '2', '%']) == (
            seq![seq!['4', '2']],
            Seq::<char>::empty(),
        ),
{
    let rec = seq!['l', 'a', 'b', 'e', 'l', ':', '4', '2', '%'];
    let s = r + rec;
    let body = r + seq!['l', 'a', 'b', 'e', 'l', ':', '4', '2'];
    assert(s.drop_last() =~= body);
    assert(!body.contains(DELIMITER)) by {
        if body.contains(DELIMITER) {
            let i = choose|i: int| 0 <= i < body.len() && body[i] == DELIMITER;
            if i < r.len() {
                assert(r[i] == DELIMITER);
            }
        }
    }
    lemma_feed_undelimited((Seq::empty(), Seq::empty()), body);
    assert(Seq::<char>::empty() + body =~= body);
    let k: int = r.len() as int + 5;
    assert forall|m: int| 0 <= m < k implies body[m] != SEPARATOR by {
        if m < r.len() {
            assert(body[m] == r[m]);
            if r[m] == SEPARATOR {
                assert(r.contains(SEPARATOR));
            }
        }
    }
    lemma_find_from(body, SEPARATOR, 0, k);
    let v = body.subrange(k + 1, body.len() as int);
    assert(v =~= seq!['4', '2']);
    assert(skip_space(v, 0) == 0);
    assert(back_space(v, 0, 2) == 2);
    assert(v.subrange(0, 2) =~= v);
}

} // verus!
