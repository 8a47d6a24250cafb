//! File-name slugs of titles, and calendar dates of epoch times.

use crate::model::EpochTime;
use crate::text::{
    char_is_alphanumeric, char_is_white_space, char_utf8_width, chars_of, is_alphanumeric,
    is_white_space, lemma_utf8_len_concat, lemma_utf8_len_push, push_char, append_chars, string_of_chars, utf8_len, utf8_width,
};
use vstd::prelude::*;

verus! {

/// Whether a title character survives in the slug.
pub open spec fn slug_keeps(c: char) -> bool {
    is_alphanumeric(c) || is_white_space(c)
}

/// What a surviving title character becomes in the slug.
pub open spec fn slug_char(c: char) -> char {
    if is_white_space(c) {
        '_'
    } else {
        c
    }
}

/// The title with every character that is neither alphanumeric nor
/// whitespace dropped, and every whitespace character turned into `_`.
pub open spec fn slug_chars(s: Seq<char>) -> Seq<char>
    decreases s.len(),
{
    if s.len() == 0 {
        s
    } else if slug_keeps(s.last()) {
        slug_chars(s.drop_last()).push(slug_char(s.last()))
    } else {
        slug_chars(s.drop_last())
    }
}

/// The pieces of `s` between underscores, empty pieces included.
pub open spec fn split_words(s: Seq<char>) -> Seq<Seq<char>>
    decreases s.len(),
{
    if s.len() == 0 {
        seq![Seq::empty()]
    } else {
        let w = split_words(s.drop_last());
        if s.last() == '_' {
            w.push(Seq::empty())
        } else {
            w.update(w.len() - 1, w.last().push(s.last()))
        }
    }
}

/// The longest prefix of `w` whose UTF-8 encoding takes at most `budget` bytes.
pub open spec fn fit_prefix(w: Seq<char>, budget: int) -> Seq<char>
    decreases w.len(),
{
    if w.len() == 0 || utf8_width(w[0]) > budget {
        Seq::empty()
    } else {
        seq![w[0]] + fit_prefix(w.drop_first(), budget - utf8_width(w[0]))
    }
}

/// Whole words from `ws[i]` on, appended to `res` (the first word as it
/// is, each later one after a `_`) while the result stays within `n` bytes;
/// a first word that alone is too long is cut and marked with a trailing `_`.
pub open spec fn pack_words(ws: Seq<Seq<char>>, n: int, i: int, res: Seq<char>) -> Seq<char>
    decreases ws.len() - i,
{
    if i < 0 || i >= ws.len() {
        res
    } else {
        let w = ws[i];
        let next = if i == 0 {
            w
        } else {
            res.push('_') + w
        };
        if utf8_len(next) > n {
            if i == 0 {
                fit_prefix(w, n - 1).push('_')
            } else {
                res
            }
        } else {
            pack_words(ws, n, i + 1, next)
        }
    }
}

/// The file-name slug of `s` within `n` bytes.
pub open spec fn normalized_filename(s: Seq<char>, n: int) -> Seq<char> {
    let t = slug_chars(s);
    if utf8_len(t) <= n {
        t
    } else {
        pack_words(split_words(t), n, 0, Seq::empty())
    }
}

proof fn lemma_fit_prefix_within(w: Seq<char>, budget: int)
    requires
        budget >= 0,
    ensures
        utf8_len(fit_prefix(w, budget)) <= budget,
    decreases w.len(),
{
    if w.len() == 0 || utf8_width(w[0]) > budget {
    } else {
        let rest = fit_prefix(w.drop_first(), budget - utf8_width(w[0]));
        lemma_fit_prefix_within(w.drop_first(), budget - utf8_width(w[0]));
        lemma_utf8_len_concat(seq![w[0]], rest);
        lemma_utf8_len_push(rest, w[0]);
    }
}

proof fn lemma_pack_within(ws: Seq<Seq<char>>, n: int, i: int, res: Seq<char>)
    requires
        n >= 1,
        utf8_len(res) <= n,
    ensures
        utf8_len(pack_words(ws, n, i, res)) <= n,
    decreases ws.len() - i,
{
    if 0 <= i < ws.len() {
        let w = ws[i];
        let next = if i == 0 {
            w
        } else {
            res.push('_') + w
        };
        if utf8_len(next) > n {
            if i == 0 {
                lemma_fit_prefix_within(w, n - 1);
                lemma_utf8_len_push(fit_prefix(w, n - 1), '_');
            }
        } else {
            lemma_pack_within(ws, n, i + 1, next);
        }
    }
}

/// A slug never takes more than `n` bytes.
pub proof fn lemma_normalized_filename_within(s: Seq<char>, n: int)
    requires
        n >= 1,
    ensures
        utf8_len(normalized_filename(s, n)) <= n,
{
    let t = slug_chars(s);
    if utf8_len(t) > n {
        assert(utf8_len(Seq::<char>::empty()) == 0);
        lemma_pack_within(split_words(t), n, 0, Seq::empty());
    }
}

/// The views of a list of words.
pub open spec fn words_view(v: Seq<Vec<char>>) -> Seq<Seq<char>> {
    v.map_values(|w: Vec<char>| w@)
}

/// The UTF-8 length of `w`, where it is at most `budget`.
fn utf8_len_within(w: &Vec<char>, budget: usize) -> (r: Option<usize>)
    ensures
        r == (if utf8_len(w@) <= budget {
            Some(utf8_len(w@) as usize)
        } else {
            None::<usize>
        }),
{
    let mut rem: usize = budget;
    let mut i: usize = 0;
    while i < w.len()
        invariant
            i <= w.len(),
            rem <= budget,
            utf8_len(w@.subrange(0, i as int)) + rem == budget,
        decreases w.len() - i,
    {
        let c = w[i];
        let width = char_utf8_width(c);
        proof {
            lemma_utf8_len_push(w@.subrange(0, i as int), c);
            assert(w@.subrange(0, i + 1) =~= w@.subrange(0, i as int).push(c));
        }
        if width > rem {
            proof {
                lemma_utf8_len_concat(w@.subrange(0, i + 1), w@.subrange(i + 1, w@.len() as int));
                assert(w@.subrange(0, i + 1) + w@.subrange(i + 1, w@.len() as int) =~= w@);
            }
            return None;
        }
        rem = rem - width;
        i += 1;
    }
    proof {
        assert(w@.subrange(0, i as int) =~= w@);
    }
    Some(budget - rem)
}

/// The longest prefix of `w` that fits in `budget` bytes.
fn fit_prefix_of(w: &Vec<char>, budget: usize) -> (r: Vec<char>)
    ensures
        r@ == fit_prefix(w@, budget as int),
{
    let mut r: Vec<char> = Vec::new();
    let mut rem: usize = budget;
    let mut i: usize = 0;
    proof {
        assert(w@.subrange(0, w@.len() as int) =~= w@);
        assert(r@ + w@ =~= w@);
    }
    while i < w.len()
        invariant
            i <= w.len(),
            rem <= budget,
            fit_prefix(w@, budget as int) == r@ + fit_prefix(w@.subrange(i as int, w@.len() as int), rem as int),
        decreases w.len() - i,
    {
        let c = w[i];
        let width = char_utf8_width(c);
        let ghost rest = w@.subrange(i as int, w@.len() as int);
        if width > rem {
            proof {
                assert(r@ + Seq::<char>::empty() =~= r@);
            }
            return r;
        }
        proof {
            assert(rest.drop_first() =~= w@.subrange(i + 1, w@.len() as int));
            assert(r@ + (seq![c] + fit_prefix(rest.drop_first(), rem - width)) =~= r@.push(c) + fit_prefix(rest.drop_first(), rem - width));
        }
        r.push(c);
        rem = rem - width;
        i += 1;
    }
    proof {
        assert(r@ + Seq::<char>::empty() =~= r@);
    }
    r
}

/// The pieces of `t` between underscores.
fn split_on_underscore(t: &Vec<char>) -> (r: Vec<Vec<char>>)
    ensures
        words_view(r@) == split_words(t@),
{
    let mut done: Vec<Vec<char>> = Vec::new();
    let mut cur: Vec<char> = Vec::new();
    let mut i: usize = 0;
    proof {
        assert(t@.subrange(0, 0) =~= Seq::<char>::empty());
        assert(words_view(done@).push(cur@) =~= seq![Seq::<char>::empty()]);
    }
    while i < t.len()
        invariant
            i <= t.len(),
            split_words(t@.subrange(0, i as int)) == words_view(done@).push(cur@),
        decreases t.len() - i,
    {
        let c = t[i];
        let ghost before = words_view(done@).push(cur@);
        proof {
            assert(t@.subrange(0, i + 1).drop_last() =~= t@.subrange(0, i as int));
        }
        if c == '_' {
            done.push(cur);
            cur = Vec::new();
            proof {
                assert(words_view(done@).push(cur@) =~= before.push(Seq::<char>::empty()));
            }
        } else {
            let ghost old_cur = cur@;
            cur.push(c);
            proof {
                assert(words_view(done@).push(cur@) =~= before.update(
                    before.len() - 1,
                    old_cur.push(c),
                ));
            }
        }
        i += 1;
    }
    proof {
        assert(t@.subrange(0, i as int) =~= t@);
    }
    let ghost before = words_view(done@).push(cur@);
    done.push(cur);
    proof {
        assert(words_view(done@) =~= before);
    }
    done
}

/// The words packed within `max_length` bytes, as `pack_words` says.
fn pack_words_of(words: &Vec<Vec<char>>, max_length: usize) -> (r: String)
    requires
        max_length >= 1,
    ensures
        r@ == pack_words(words_view(words@), max_length as int, 0, Seq::empty()),
{
    let ghost ws = words_view(words@);
    let n = max_length;
    let mut res = String::new();
    let mut used: usize = 0;
    let mut k: usize = 0;
    proof {
        assert(utf8_len(Seq::<char>::empty()) == 0);
    }
    while k < words.len()
        invariant
            ws == words_view(words@),
            n == max_length,
            n >= 1,
            k <= words.len(),
            used == utf8_len(res@),
            used <= n,
            k == 0 ==> res@.len() == 0,
            pack_words(ws, n as int, 0, Seq::empty()) == pack_words(ws, n as int, k as int, res@),
        decreases words.len() - k,
    {
        let w = &words[k];
        assert(ws[k as int] == w@);
        let sep: usize = if k > 0 {
            1
        } else {
            0
        };
        let ghost next = if k == 0 {
            w@
        } else {
            res@.push('_') + w@
        };
        proof {
            if k == 0 {
                assert(res@ + w@ =~= w@);
                assert(utf8_len(next) == used + sep + utf8_len(w@));
            } else {
                lemma_utf8_len_push(res@, '_');
                lemma_utf8_len_concat(res@.push('_'), w@);
            }
        }
        let fits = if sep > n - used {
            None
        } else {
            utf8_len_within(w, n - used - sep)
        };
        match fits {
            None => {
                if k == 0 {
                    let p = fit_prefix_of(w, max_length - 1);
                    res = string_of_chars(&p);
                    push_char(&mut res, '_');
                }
                return res;
            },
            Some(l) => {
                if k > 0 {
                    push_char(&mut res, '_');
                }
                append_chars(&mut res, w);
                proof {
                    assert(res@ =~= next);
                }
                used = used + sep + l;
                k += 1;
            },
        }
    }
    res
}

/// Turns a title into a file-name slug: characters that are neither
/// alphanumeric nor whitespace are dropped, whitespace becomes `_`, and a
/// slug longer than `max_length` bytes is cut back to the whole words that
/// fit, or, where even the first word is too long, to a prefix of it marked
/// by a trailing `_`.
pub fn normalized_filename_string(input: &str, max_length: usize) -> (r: String)
    requires
        max_length >= 1,
    ensures
        r@ == normalized_filename(input@, max_length as int),
        utf8_len(r@) <= max_length,
{
    let cs = chars_of(input);
    let mut t: Vec<char> = Vec::new();
    let mut i: usize = 0;
    proof {
        assert(input@.subrange(0, 0) =~= Seq::<char>::empty());
    }
    while i < cs.len()
        invariant
            cs@ == input@,
            i <= cs.len(),
            t@ == slug_chars(input@.subrange(0, i as int)),
        decreases cs.len() - i,
    {
        let c = cs[i];
        proof {
            assert(input@.subrange(0, i + 1).drop_last() =~= input@.subrange(0, i as int));
        }
        if char_is_white_space(c) {
            t.push('_');
        } else if char_is_alphanumeric(c) {
            t.push(c);
        }
        i += 1;
    }
    proof {
        assert(input@.subrange(0, i as int) =~= input@);
    }
    let r = if utf8_len_within(&t, max_length).is_some() {
        string_of_chars(&t)
    } else {
        let words = split_on_underscore(&t);
        pack_words_of(&words, max_length)
    };
    proof {
        lemma_normalized_filename_within(input@, max_length as int);
    }
    r
}

proof fn lemma_slug_chars_alphanumeric(s: Seq<char>)
    requires
        forall|i: int| 0 <= i < s.len() ==> is_alphanumeric(#[trigger] s[i]) || s[i] == '_',
    ensures
        forall|j: int|
            0 <= j < slug_chars(s).len() ==> is_alphanumeric(#[trigger] slug_chars(s)[j]),
    decreases s.len(),
{
    if s.len() > 0 {
        let d = s.drop_last();
        assert forall|i: int| 0 <= i < d.len() implies is_alphanumeric(#[trigger] d[i]) || d[i]
            == '_' by {
            assert(d[i] == s[i]);
        }
        lemma_slug_chars_alphanumeric(d);
        let r = slug_chars(s);
        let r1 = slug_chars(d);
        assert forall|j: int| 0 <= j < r.len() implies is_alphanumeric(#[trigger] r[j]) by {
            if j < r1.len() {
                assert(r[j] == r1[j]);
            }
        }
    }
}

proof fn lemma_slug_chars_unchanged(s: Seq<char>)
    requires
        forall|i: int| 0 <= i < s.len() ==> is_alphanumeric(#[trigger] s[i]),
    ensures
        slug_chars(s) == s,
    decreases s.len(),
{
    if s.len() > 0 {
        lemma_slug_chars_unchanged(s.drop_last());
        assert(s.drop_last().push(s.last()) =~= s);
    }
}

/// Slugging a title made of alphanumeric characters and underscores a second
/// time changes nothing, as long as its alphanumeric characters fit in `n`
/// bytes. (Where they do not, the first slug ends in the `_` that marks a
/// cut, and the second one drops it.)
pub proof fn lemma_normalized_filename_idempotent(s: Seq<char>, n: int)
    requires
        n >= 1,
        forall|i: int| 0 <= i < s.len() ==> is_alphanumeric(#[trigger] s[i]) || s[i] == '_',
        utf8_len(slug_chars(s)) <= n,
    ensures
        normalized_filename(normalized_filename(s, n), n) == normalized_filename(s, n),
{
    lemma_slug_chars_alphanumeric(s);
    lemma_slug_chars_unchanged(slug_chars(s));
}

proof fn lemma_split_words_single(t: Seq<char>)
    requires
        forall|j: int| 0 <= j < t.len() ==> #[trigger] t[j] != '_',
    ensures
        split_words(t) == seq![t],
    decreases t.len(),
{
    if t.len() > 0 {
        let d = t.drop_last();
        assert forall|j: int| 0 <= j < d.len() implies #[trigger] d[j] != '_' by {
            assert(d[j] == t[j]);
        }
        lemma_split_words_single(d);
        assert(d.push(t.last()) =~= t);
        assert(seq![d].update(0, d.push(t.last())) =~= seq![t]);
    } else {
        assert(t =~= Seq::<char>::empty());
    }
}

proof fn lemma_fit_prefix_alphanumeric(w: Seq<char>, budget: int)
    requires
        forall|j: int| 0 <= j < w.len() ==> is_alphanumeric(#[trigger] w[j]),
    ensures
        forall|j: int|
            0 <= j < fit_prefix(w, budget).len() ==> is_alphanumeric(
                #[trigger] fit_prefix(w, budget)[j],
            ),
    decreases w.len(),
{
    if w.len() > 0 && utf8_width(w[0]) <= budget {
        let d = w.drop_first();
        let b = budget - utf8_width(w[0]);
        assert forall|j: int| 0 <= j < d.len() implies is_alphanumeric(#[trigger] d[j]) by {
            assert(d[j] == w[j + 1]);
        }
        lemma_fit_prefix_alphanumeric(d, b);
        let r = fit_prefix(w, budget);
        assert forall|j: int| 0 <= j < r.len() implies is_alphanumeric(#[trigger] r[j]) by {
            if j > 0 {
                assert(r[j] == fit_prefix(d, b)[j - 1]);
            }
        }
    }
}

/// For a title made of alphanumeric characters and underscores: its slug
/// is the title without the underscores where that fits in `n` bytes, and
/// else the longest prefix of it within `n - 1` bytes followed by the `_`
/// that marks the cut. Slugging the slug again gives it back unchanged
/// where it fits, and without the trailing marker where it was cut.
pub proof fn lemma_normalized_filename_again(s: Seq<char>, n: int)
    requires
        n >= 1,
        forall|i: int| 0 <= i < s.len() ==> is_alphanumeric(#[trigger] s[i]) || s[i] == '_',
    ensures
        normalized_filename(s, n) == (if utf8_len(slug_chars(s)) <= n {
            slug_chars(s)
        } else {
            fit_prefix(slug_chars(s), n - 1).push('_')
        }),
        normalized_filename(normalized_filename(s, n), n) == (if utf8_len(slug_chars(s)) <= n {
            normalized_filename(s, n)
        } else {
            normalized_filename(s, n).drop_last()
        }),
{
    let t = slug_chars(s);
    lemma_slug_chars_alphanumeric(s);
    if utf8_len(t) <= n {
        lemma_slug_chars_unchanged(t);
    } else {
        assert forall|j: int| 0 <= j < t.len() implies #[trigger] t[j] != '_' by {
            assert(is_alphanumeric(t[j]));
        }
        lemma_split_words_single(t);
        let p = fit_prefix(t, n - 1);
        assert(pack_words(seq![t], n, 0, Seq::empty()) == p.push('_'));
        lemma_fit_prefix_alphanumeric(t, n - 1);
        lemma_fit_prefix_within(t, n - 1);
        lemma_slug_chars_unchanged(p);
        assert(p.push('_').drop_last() =~= p);
        assert(slug_chars(p.push('_')) == slug_chars(p));
    }
}

/// The `YYYY-MM-DD` text of the UTC calendar day of an epoch time, where
/// the time can be represented; `None` where it cannot.
pub uninterp spec fn utc_date_text(seconds: int, nanoseconds: int) -> Option<Seq<char>>;

/// Relies on chrono's `DateTime::from_timestamp` (`None` out of range) and
/// on the `%Y-%m-%d` formatting of the result.
#[verifier::external_body]
fn utc_date_of(seconds: i64, nanoseconds: u32) -> (r: Option<String>)
    ensures
        r is Some <==> utc_date_text(seconds as int, nanoseconds as int) is Some,
        r is Some ==> r->0@ == utc_date_text(seconds as int, nanoseconds as int)->0,
{
    match chrono::DateTime::from_timestamp(seconds, nanoseconds) {
        Some(d) => Some(d.format("%Y-%m-%d").to_string()),
        None => None,
    }
}

/// The calendar date of an epoch time, or nothing where it is out of range.
pub open spec fn date_text(time: EpochTime) -> Seq<char> {
    match utc_date_text(time.seconds as int, time.nanoseconds as int) {
        Some(t) => t,
        None => Seq::empty(),
    }
}

/// The UTC calendar date of `time` as `YYYY-MM-DD`; empty where the time
/// lies outside the representable range.
pub fn date_from_epoch_time(time: EpochTime) -> (r: String)
    ensures
        r@ == date_text(time),
{
    match utc_date_of(time.seconds, time.nanoseconds) {
        Some(t) => t,
        None => String::new(),
    }
}

} // verus!
