//! Small verified text utilities shared by the codec, the command
//! interpreter and the renderers: ASCII case folding, whitespace splitting
//! and joining of character sequences.

use vstd::prelude::*;

verus! {

/// The whitespace characters that separate command tokens.
pub open spec fn is_ws(c: char) -> bool {
    c == ' ' || c == '\t' || c == '\r' || c == '\n'
}

/// ASCII lower casing of one character; anything outside 'A'..'Z' is kept.
pub open spec fn lower_char(c: char) -> char {
    if 'A' <= c && c <= 'Z' {
        ((c as u8) + 32) as char
    } else {
        c
    }
}

/// ASCII lower casing of a whole character sequence.
pub open spec fn lower_seq(s: Seq<char>) -> Seq<char> {
    s.map_values(|c: char| lower_char(c))
}

/// Lower cases one ASCII letter, leaving every other character alone.
pub fn ascii_lower(c: char) -> (r: char)
    ensures
        r == lower_char(c),
{
    if 'A' <= c && c <= 'Z' {
        (((c as u8) + 32) as char)
    } else {
        c
    }
}

/// ASCII upper casing of one character; anything outside 'a'..'z' is kept.
pub open spec fn upper_char(c: char) -> char {
    if 'a' <= c && c <= 'z' {
        ((c as u8) - 32) as char
    } else {
        c
    }
}

/// Upper cases one ASCII letter, leaving every other character alone.
pub fn ascii_upper(c: char) -> (r: char)
    ensures
        r == upper_char(c),
{
    if 'a' <= c && c <= 'z' {
        (((c as u8) - 32) as char)
    } else {
        c
    }
}

/// Compares a string slice to a pattern, folding the left side to lower
/// case.
pub fn eq_lower_str(a: &str, pat: &str) -> (r: bool)
    ensures
        r == (lower_seq(a@) == pat@),
{
    let n = a.unicode_len();
    if pat.unicode_len() != n {
        proof {
            assert(lower_seq(a@).len() == a@.len());
        }
        return false;
    }
    let mut i: usize = 0;
    while i < n
        invariant
            i <= n,
            n == a@.len(),
            n == pat@.len(),
            forall|j: int| 0 <= j < i ==> lower_seq(a@)[j] == pat@[j],
        decreases n - i,
    {
        if ascii_lower(a.get_char(i)) != pat.get_char(i) {
            proof {
                assert(lower_seq(a@)[i as int] != pat@[i as int]);
            }
            return false;
        }
        i = i + 1;
    }
    proof {
        assert(lower_seq(a@) =~= pat@);
    }
    true
}

/// Relies on `String::push`: appends exactly one character to the string.
#[verifier::external_body]
pub fn push_char(s: &mut String, c: char)
    ensures
        final(s)@ == old(s)@.push(c),
{
    s.push(c);
}

/// Copies the characters of a string slice into a vector.
pub fn str_chars(s: &str) -> (r: Vec<char>)
    ensures
        r@ == s@,
{
    let n: usize = s.unicode_len();
    let mut r: Vec<char> = Vec::new();
    let mut i: usize = 0;
    while i < n
        invariant
            i <= n,
            n == s@.len(),
            r@ == s@.take(i as int),
        decreases n - i,
    {
        r.push(s.get_char(i));
        i = i + 1;
        proof {
            assert(r@ =~= s@.take(i as int));
        }
    }
    proof {
        assert(s@.take(n as int) =~= s@);
    }
    r
}

/// Builds a string out of a character sequence.
pub fn chars_to_string(v: &Vec<char>) -> (r: String)
    ensures
        r@ == v@,
{
    let mut r = String::new();
    let mut i: usize = 0;
    while i < v.len()
        invariant
            i <= v@.len(),
            r@ == v@.take(i as int),
        decreases v@.len() - i,
    {
        push_char(&mut r, v[i]);
        i = i + 1;
        proof {
            assert(r@ =~= v@.take(i as int));
        }
    }
    proof {
        assert(v@.take(v@.len() as int) =~= v@);
    }
    r
}

/// The views of a sequence of character vectors.
pub open spec fn seq_views(s: Seq<Vec<char>>) -> Seq<Seq<char>> {
    s.map_values(|v: Vec<char>| v@)
}

/// One step of whitespace splitting: what remains of the input, the token
/// being collected, and the tokens already finished.
pub open spec fn split_ws_rec(s: Seq<char>, cur: Seq<char>, acc: Seq<Seq<char>>) -> Seq<Seq<char>>
    decreases s.len(),
{
    if s.len() == 0 {
        if cur.len() == 0 {
            acc
        } else {
            acc.push(cur)
        }
    } else if is_ws(s.first()) {
        if cur.len() == 0 {
            split_ws_rec(s.drop_first(), Seq::empty(), acc)
        } else {
            split_ws_rec(s.drop_first(), Seq::empty(), acc.push(cur))
        }
    } else {
        split_ws_rec(s.drop_first(), cur.push(s.first()), acc)
    }
}

/// The maximal whitespace-free runs of `s`, in order.
pub open spec fn tokens_of(s: Seq<char>) -> Seq<Seq<char>> {
    split_ws_rec(s, Seq::empty(), Seq::empty())
}

/// Splits the characters into whitespace-separated tokens.
pub fn tokenize(chars: &Vec<char>) -> (r: Vec<Vec<char>>)
    ensures
        seq_views(r@) == tokens_of(chars@),
{
    let ghost s = chars@;
    let mut acc: Vec<Vec<char>> = Vec::new();
    let mut cur: Vec<char> = Vec::new();
    let mut i: usize = 0;
    proof {
        assert(s.skip(0) =~= s);
        assert(seq_views(acc@) =~= Seq::<Seq<char>>::empty());
    }
    while i < chars.len()
        invariant
            chars@ == s,
            i <= s.len(),
            split_ws_rec(s.skip(i as int), cur@, seq_views(acc@)) == tokens_of(s),
        decreases s.len() - i,
    {
        let ghost skip_i = s.skip(i as int);
        let ghost cur0 = cur@;
        let ghost accv0 = seq_views(acc@);
        proof {
            assert(skip_i.len() == s.len() - i);
            assert(skip_i.first() == s[i as int]);
            assert(skip_i.drop_first() =~= s.skip(i as int + 1));
        }
        let c = chars[i];
        if c == ' ' || c == '\t' || c == '\r' || c == '\n' {
            if cur.len() > 0 {
                let ghost acc_before = acc@;
                let ghost cur_before = cur@;
                acc.push(cur);
                cur = Vec::new();
                proof {
                    assert(seq_views(acc@) =~= seq_views(acc_before).push(cur_before));
                }
            }
        } else {
            let ghost cur_before = cur@;
            cur.push(c);
            proof {
                assert(cur@ =~= cur_before.push(s[i as int]));
            }
        }
        proof {
            if is_ws(skip_i.first()) {
                if cur0.len() == 0 {
                    assert(cur0 =~= Seq::<char>::empty());
                    assert(split_ws_rec(skip_i, cur0, accv0) == split_ws_rec(
                        skip_i.drop_first(),
                        Seq::<char>::empty(),
                        accv0,
                    ));
                } else {
                    assert(cur@ =~= Seq::<char>::empty());
                    assert(seq_views(acc@) == accv0.push(cur0));
                    assert(split_ws_rec(skip_i, cur0, accv0) == split_ws_rec(
                        skip_i.drop_first(),
                        Seq::<char>::empty(),
                        accv0.push(cur0),
                    ));
                }
            } else {
                assert(cur@ == cur0.push(skip_i.first()));
                assert(seq_views(acc@) == accv0);
                assert(split_ws_rec(skip_i, cur0, accv0) == split_ws_rec(
                    skip_i.drop_first(),
                    cur0.push(skip_i.first()),
                    accv0,
                ));
            }
            assert(split_ws_rec(skip_i, cur0, accv0) == split_ws_rec(
                skip_i.drop_first(),
                cur@,
                seq_views(acc@),
            ));
        }
        i = i + 1;
    }
    proof {
        assert(s.skip(s.len() as int) =~= Seq::<char>::empty());
    }
    if cur.len() > 0 {
        acc.push(cur);
    }
    proof {
        assert(seq_views(acc@) =~= tokens_of(s));
    }
    acc
}

/// Joins the parts with the separator between each two.
pub open spec fn join_with(parts: Seq<Seq<char>>, sep: Seq<char>) -> Seq<char>
    decreases parts.len(),
{
    if parts.len() == 0 {
        Seq::empty()
    } else if parts.len() == 1 {
        parts.first()
    } else {
        parts.first() + sep + join_with(parts.drop_first(), sep)
    }
}

/// Appending one more part joins it after one more separator.
pub proof fn lemma_join_push(parts: Seq<Seq<char>>, sep: Seq<char>, p: Seq<char>)
    requires
        parts.len() > 0,
    ensures
        join_with(parts.push(p), sep) == join_with(parts, sep) + sep + p,
    decreases parts.len(),
{
    if parts.len() == 1 {
        assert(parts.push(p).drop_first() =~= seq![p]);
        assert(join_with(seq![p], sep) == p);
        assert(parts.push(p).first() == parts.first());
    } else {
        lemma_join_push(parts.drop_first(), sep, p);
        assert(parts.push(p).drop_first() =~= parts.drop_first().push(p));
        assert(parts.push(p).first() == parts.first());
        assert(parts.first() + sep + (join_with(parts.drop_first(), sep) + sep + p) =~= (
        parts.first() + sep + join_with(parts.drop_first(), sep)) + sep + p);
    }
}

/// Joins the token views from index `from` on with single spaces: how a
/// command's remainder is normalised.
pub fn join_tokens(toks: &Vec<Vec<char>>, from: usize) -> (r: String)
    requires
        from <= toks@.len(),
    ensures
        r@ == join_with(seq_views(toks@).skip(from as int), seq![' ']),
{
    let ghost parts = seq_views(toks@).skip(from as int);
    let mut r = String::new();
    if from >= toks.len() {
        proof {
            assert(parts.len() == 0);
        }
        return r;
    }
    let first_tok = chars_to_string(&toks[from]);
    r.append(first_tok.as_str());
    let mut i: usize = from + 1;
    while i < toks.len()
        invariant
            from < i <= toks@.len(),
            r@ == join_with(seq_views(toks@).subrange(from as int, i as int), seq![' ']),
        decreases toks@.len() - i,
    {
        let ghost sofar = seq_views(toks@).subrange(from as int, i as int);
        push_char(&mut r, ' ');
        let t = chars_to_string(&toks[i]);
        r.append(t.as_str());
        proof {
            lemma_join_push(sofar, seq![' '], toks@[i as int]@);
            assert(sofar.push(toks@[i as int]@) =~= seq_views(toks@).subrange(
                from as int,
                i as int + 1,
            ));
            assert(r@ =~= join_with(
                seq_views(toks@).subrange(from as int, i as int + 1),
                seq![' '],
            ));
        }
        i = i + 1;
    }
    proof {
        assert(seq_views(toks@).subrange(from as int, toks@.len() as int) =~= parts);
    }
    r
}

/// Compares a token to a pattern, folding the token to lower case first.
pub fn eq_lower(tok: &Vec<char>, pat: &str) -> (r: bool)
    ensures
        r == (lower_seq(tok@) == pat@),
{
    let n = pat.unicode_len();
    if tok.len() != n {
        proof {
            assert(lower_seq(tok@).len() == tok@.len());
        }
        return false;
    }
    let mut i: usize = 0;
    while i < n
        invariant
            i <= n,
            n == tok@.len(),
            n == pat@.len(),
            forall|j: int| 0 <= j < i ==> lower_seq(tok@)[j] == pat@[j],
        decreases n - i,
    {
        if ascii_lower(tok[i]) != pat.get_char(i) {
            proof {
                assert(lower_seq(tok@)[i as int] != pat@[i as int]);
            }
            return false;
        }
        i = i + 1;
    }
    proof {
        assert(lower_seq(tok@) =~= pat@);
    }
    true
}

/// The views of a sequence of strings.
pub open spec fn string_views(s: Seq<String>) -> Seq<Seq<char>> {
    s.map_values(|v: String| v@)
}

/// Joins the strings with the separator between each two.
pub fn join_strings(items: &Vec<String>, sep: &str) -> (r: String)
    ensures
        r@ == join_with(string_views(items@), sep@),
{
    let ghost parts = string_views(items@);
    let mut r = String::new();
    if items.len() == 0 {
        return r;
    }
    r.append(items[0].as_str());
    let mut i: usize = 1;
    while i < items.len()
        invariant
            1 <= i <= items@.len(),
            parts == string_views(items@),
            parts.len() == items@.len(),
            r@ == join_with(parts.subrange(0, i as int), sep@),
        decreases items@.len() - i,
    {
        let ghost sofar = parts.subrange(0, i as int);
        r.append(sep);
        r.append(items[i].as_str());
        proof {
            lemma_join_push(sofar, sep@, items@[i as int]@);
            assert(sofar.push(items@[i as int]@) =~= parts.subrange(0, i as int + 1));
            assert(r@ =~= join_with(parts.subrange(0, i as int + 1), sep@));
        }
        i = i + 1;
    }
    proof {
        assert(parts.subrange(0, parts.len() as int) =~= parts);
    }
    r
}

/// Compares two string slices character by character.
pub fn str_eq(a: &str, b: &str) -> (r: bool)
    ensures
        r == (a@ == b@),
{
    let n = a.unicode_len();
    if b.unicode_len() != n {
        return false;
    }
    let mut i: usize = 0;
    while i < n
        invariant
            i <= n,
            n == a@.len(),
            n == b@.len(),
            forall|j: int| 0 <= j < i ==> a@[j] == b@[j],
        decreases n - i,
    {
        if a.get_char(i) != b.get_char(i) {
            return false;
        }
        i = i + 1;
    }
    proof {
        assert(a@ =~= b@);
    }
    true
}

/// Lower cases every character of the token.
pub fn lower_chars(tok: &Vec<char>) -> (r: Vec<char>)
    ensures
        r@ == lower_seq(tok@),
{
    let mut r: Vec<char> = Vec::new();
    let mut i: usize = 0;
    while i < tok.len()
        invariant
            i <= tok@.len(),
            r@ == lower_seq(tok@).take(i as int),
        decreases tok@.len() - i,
    {
        r.push(ascii_lower(tok[i]));
        i = i + 1;
        proof {
            assert(r@ =~= lower_seq(tok@).take(i as int));
        }
    }
    proof {
        assert(lower_seq(tok@).take(tok@.len() as int) =~= lower_seq(tok@));
    }
    r
}

/// The decimal digit character for a value below ten.
pub open spec fn digit_char(d: nat) -> char {
    ((48 + d) as u8) as char
}

/// The decimal rendering of a natural number, most significant digit first.
pub open spec fn dec_str(n: nat) -> Seq<char>
    decreases n,
{
    if n < 10 {
        seq![digit_char(n)]
    } else {
        dec_str(n / 10).push(digit_char(n % 10))
    }
}

/// Renders a number in decimal.
pub fn u32_to_string(n: u32) -> (r: String)
    ensures
        r@ == dec_str(n as nat),
    decreases n,
{
    if n < 10 {
        let mut r = String::new();
        let d: u8 = 48 + (n as u8);
        push_char(&mut r, d as char);
        proof {
            assert(r@ =~= dec_str(n as nat));
        }
        r
    } else {
        let mut r = u32_to_string(n / 10);
        let d: u8 = 48 + ((n % 10) as u8);
        push_char(&mut r, d as char);
        r
    }
}

} // verus!
