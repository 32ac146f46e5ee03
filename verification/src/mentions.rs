//! Mention resolution: three substitution passes that turn reference tokens
//! (`<@id>`, `<@!id>`, `<#id>`, `<@&id>`) into display text.

use vstd::prelude::*;
use crate::event::{InboundEvent, UserMention};
use crate::text::{
    chars_to_string, dec_digits_of, digits_val, is_dec_digit, is_space_char, dec_digit,
    parse_u64_digits, space_char, to_chars, u64_to_dec_chars,
};

verus! {

/// Whether `pat` occurs in `t` at position `i`.
pub open spec fn occurs_at(t: Seq<char>, pat: Seq<char>, i: int) -> bool {
    0 <= i && i + pat.len() <= t.len() && t.subrange(i, i + pat.len() as int) == pat
}

/// Whether `pat` occurs anywhere in `t`.
pub open spec fn occurs(t: Seq<char>, pat: Seq<char>) -> bool {
    exists|i: int| occurs_at(t, pat, i)
}

/// `t` with every occurrence of `pat` replaced by `rep`: scanning left to
/// right, non-overlapping, the way `str::replace` substitutes.  An empty
/// pattern replaces nothing.
pub open spec fn replace_all(t: Seq<char>, pat: Seq<char>, rep: Seq<char>) -> Seq<char>
    decreases t.len(),
{
    if pat.len() == 0 || t.len() < pat.len() {
        t
    } else if t.subrange(0, pat.len() as int) == pat {
        rep + replace_all(t.skip(pat.len() as int), pat, rep)
    } else {
        seq![t[0]] + replace_all(t.drop_first(), pat, rep)
    }
}

/// A pattern that occurs nowhere is not substituted: `replace_all` is the
/// identity on such text.
pub proof fn lemma_replace_all_absent(t: Seq<char>, pat: Seq<char>, rep: Seq<char>)
    requires
        !occurs(t, pat),
    ensures
        replace_all(t, pat, rep) == t,
    decreases t.len(),
{
    if pat.len() == 0 || t.len() < pat.len() {
    } else if t.subrange(0, pat.len() as int) == pat {
        assert(occurs_at(t, pat, 0));
    } else {
        assert forall|i: int| !occurs_at(t.drop_first(), pat, i) by {
            if occurs_at(t.drop_first(), pat, i) {
                assert(t.drop_first().subrange(i, i + pat.len() as int) =~= t.subrange(
                    i + 1,
                    i + 1 + pat.len() as int,
                ));
                assert(occurs_at(t, pat, i + 1));
            }
        }
        lemma_replace_all_absent(t.drop_first(), pat, rep);
        assert(seq![t[0]] + t.drop_first() =~= t);
    }
}

/// Whether `pat` occurs in `t` at position `i` (executable).
fn match_at(t: &Vec<char>, pat: &Vec<char>, i: usize) -> (r: bool)
    requires
        i + pat@.len() <= t@.len(),
    ensures
        r == occurs_at(t@, pat@, i as int),
{
    let n = t.len();
    let mut j: usize = 0;
    while j < pat.len()
        invariant
            n == t@.len(),
            i + pat@.len() <= t@.len(),
            j <= pat@.len(),
            forall|k: int| 0 <= k < j ==> t@[i + k] == pat@[k],
        decreases pat@.len() - j,
    {
        if t[i + j] != pat[j] {
            assert(t@.subrange(i as int, i + pat@.len()) != pat@) by {
                assert(t@.subrange(i as int, i + pat@.len())[j as int] == t@[i + j]);
            }
            return false;
        }
        j = j + 1;
    }
    assert(t@.subrange(i as int, i + pat@.len()) =~= pat@);
    true
}

/// Appends all of `src` to `out`.
fn push_all(out: &mut Vec<char>, src: &Vec<char>)
    ensures
        final(out)@ == old(out)@ + src@,
{
    let mut j: usize = 0;
    while j < src.len()
        invariant
            j <= src@.len(),
            out@ == old(out)@ + src@.take(j as int),
        decreases src@.len() - j,
    {
        out.push(src[j]);
        assert(old(out)@ + src@.take(j as int) + seq![src@[j as int]] =~= old(out)@ + src@.take(
            j + 1,
        ));
        j = j + 1;
    }
    assert(old(out)@ + src@.take(src@.len() as int) =~= old(out)@ + src@);
}

/// Replaces every occurrence of `pat` in `t` by `rep`, left to right without
/// overlap, matching `replace_all`.
pub fn replace_all_chars(t: &Vec<char>, pat: &Vec<char>, rep: &Vec<char>) -> (r: Vec<char>)
    ensures
        r@ == replace_all(t@, pat@, rep@),
{
    let mut out: Vec<char> = Vec::new();
    if pat.len() == 0 || t.len() < pat.len() {
        push_all(&mut out, t);
        assert(Seq::<char>::empty() + t@ =~= t@);
        return out;
    }
    let mut i: usize = 0;
    proof {
        assert(t@.skip(0) =~= t@);
        assert(Seq::<char>::empty() + replace_all(t@, pat@, rep@) =~= replace_all(
            t@,
            pat@,
            rep@,
        ));
    }
    while i <= t.len() - pat.len()
        invariant
            1 <= pat@.len() <= t@.len(),
            i <= t@.len(),
            replace_all(t@, pat@, rep@) == out@ + replace_all(t@.skip(i as int), pat@, rep@),
        decreases t@.len() - i,
    {
        proof {
            assert(t@.skip(i as int).len() == t@.len() - i);
            assert(t@.skip(i as int).subrange(0, pat@.len() as int) =~= t@.subrange(
                i as int,
                i + pat@.len(),
            ));
        }
        if match_at(t, pat, i) {
            let ghost prev = out@;
            push_all(&mut out, rep);
            proof {
                assert(t@.skip(i as int).skip(pat@.len() as int) =~= t@.skip(i + pat@.len()));
                assert((prev + rep@) + replace_all(t@.skip(i + pat@.len()), pat@, rep@) =~= prev + (
                rep@ + replace_all(t@.skip(i + pat@.len()), pat@, rep@)));
            }
            i = i + pat.len();
        } else {
            let ghost prev = out@;
            out.push(t[i]);
            proof {
                assert(t@.skip(i as int)[0] == t@[i as int]);
                assert(t@.skip(i as int).drop_first() =~= t@.skip(i as int + 1));
                assert(prev.push(t@[i as int]) + replace_all(t@.skip(i as int + 1), pat@, rep@)
                    =~= prev + (seq![t@[i as int]] + replace_all(
                    t@.skip(i as int + 1),
                    pat@,
                    rep@,
                )));
            }
            i = i + 1;
        }
    }
    // the remaining tail is shorter than the pattern and is copied verbatim
    proof {
        assert(t@.skip(i as int).len() < pat@.len());
    }
    let mut j: usize = i;
    while j < t.len()
        invariant
            j <= t@.len(),
            out@ + t@.skip(j as int) == replace_all(t@, pat@, rep@),
        decreases t@.len() - j,
    {
        let ghost prev = out@;
        out.push(t[j]);
        proof {
            assert(t@.skip(j as int)[0] == t@[j as int]);
            assert(prev.push(t@[j as int]) + t@.skip(j as int + 1) =~= prev + t@.skip(j as int));
        }
        j = j + 1;
    }
    proof {
        assert(out@ + t@.skip(t@.len() as int) =~= out@);
    }
    out
}

/// Length of the run of decimal digits at the head of `t`.
pub open spec fn digit_run_len(t: Seq<char>) -> int
    decreases t.len(),
{
    if t.len() > 0 && is_dec_digit(t[0]) {
        1 + digit_run_len(t.drop_first())
    } else {
        0
    }
}

/// Whether a channel-reference token (`<`, `#`, one or more decimal digits,
/// `>`) stands at the head of `t`.
pub open spec fn chan_token_at_head(t: Seq<char>) -> bool {
    &&& t.len() >= 2
    &&& t[0] == '<'
    &&& t[1] == '#'
    &&& digit_run_len(t.skip(2)) >= 1
    &&& 2 + digit_run_len(t.skip(2)) < t.len()
    &&& t[2 + digit_run_len(t.skip(2))] == '>'
}

/// Index one past the `>` of the channel token at the head of `t`.
pub open spec fn chan_token_end(t: Seq<char>) -> int {
    3 + digit_run_len(t.skip(2))
}

/// The digit characters of the channel token at the head of `t`.
pub open spec fn chan_token_digits(t: Seq<char>) -> Seq<char> {
    t.subrange(2, 2 + digit_run_len(t.skip(2)))
}

/// The directory the resolver consults: channel and role ids with their
/// display names, as the transport reported them for this event.  A missing
/// entry models a failed or empty lookup.
pub struct Directory {
    pub channels: Vec<(u64, String)>,
    pub roles: Vec<(u64, String)>,
}

/// First-match lookup in an association list.
pub open spec fn assoc_lookup(entries: Seq<(u64, String)>, k: u64) -> Option<Seq<char>>
    decreases entries.len(),
{
    if entries.len() == 0 {
        None
    } else if entries[0].0 == k {
        Some(entries[0].1@)
    } else {
        assoc_lookup(entries.drop_first(), k)
    }
}

/// First-match lookup in an association list (executable).
fn assoc_find(entries: &Vec<(u64, String)>, k: u64) -> (r: Option<String>)
    ensures
        r matches Some(s) ==> assoc_lookup(entries@, k) == Some(s@),
        r is None ==> assoc_lookup(entries@, k) is None,
{
    let n = entries.len();
    let mut i: usize = 0;
    proof {
        assert(entries@.skip(0) =~= entries@);
    }
    while i < n
        invariant
            n == entries@.len(),
            i <= n,
            assoc_lookup(entries@, k) == assoc_lookup(entries@.skip(i as int), k),
        decreases n - i,
    {
        proof {
            assert(entries@.skip(i as int)[0] == entries@[i as int]);
            assert(entries@.skip(i as int).drop_first() =~= entries@.skip(i as int + 1));
        }
        if entries[i].0 == k {
            return Some(entries[i].1.clone());
        }
        i = i + 1;
    }
    None
}

impl Directory {
    /// The display name of channel `id`, when the directory holds one.
    pub open spec fn spec_channel_name(self, id: u64) -> Option<Seq<char>> {
        assoc_lookup(self.channels@, id)
    }

    /// The name of role `id`, when the directory holds one.
    pub open spec fn spec_role_name(self, id: u64) -> Option<Seq<char>> {
        assoc_lookup(self.roles@, id)
    }

    /// Looks channel `id` up in the directory.
    pub fn resolve_channel_name(&self, id: u64) -> (r: Option<String>)
        ensures
            r matches Some(s) ==> self.spec_channel_name(id) == Some(s@),
            r is None ==> self.spec_channel_name(id) is None,
    {
        assoc_find(&self.channels, id)
    }

    /// Looks role `id` up in the directory.
    pub fn resolve_role(&self, id: u64) -> (r: Option<String>)
        ensures
            r matches Some(s) ==> self.spec_role_name(id) == Some(s@),
            r is None ==> self.spec_role_name(id) is None,
    {
        assoc_find(&self.roles, id)
    }
}

/// The replacement for one channel token with digit string `ds`: the
/// directory's name for that channel, or empty text when the id is unknown
/// or does not fit in a `u64`.
pub open spec fn chan_replacement(ds: Seq<char>, dir: Directory) -> Seq<char> {
    if digits_val(ds) > u64::MAX {
        Seq::empty()
    } else {
        match assoc_lookup(dir.channels@, digits_val(ds) as u64) {
            Some(name) => name,
            None => Seq::empty(),
        }
    }
}

/// `t` with every channel-reference token spliced out for its display name,
/// left to right without overlap; all characters outside matched tokens are
/// kept verbatim.
pub open spec fn resolve_channel_refs(t: Seq<char>, dir: Directory) -> Seq<char>
    decreases t.len(),
{
    if t.len() == 0 {
        Seq::empty()
    } else if chan_token_at_head(t) {
        chan_replacement(chan_token_digits(t), dir) + resolve_channel_refs(
            t.skip(chan_token_end(t)),
            dir,
        )
    } else {
        seq![t[0]] + resolve_channel_refs(t.drop_first(), dir)
    }
}

/// Finds the channel token starting at position `i` of `t`, if any, and
/// returns the index one past its `>`.
fn chan_token_end_at(t: &Vec<char>, i: usize) -> (r: Option<usize>)
    requires
        i < t@.len(),
    ensures
        (r is Some) == chan_token_at_head(t@.skip(i as int)),
        r matches Some(end) ==> {
            &&& i + chan_token_end(t@.skip(i as int)) == end
            &&& i + 4 <= end <= t@.len()
            &&& chan_token_digits(t@.skip(i as int)) == t@.subrange(i + 2, end - 1)
            &&& forall|j: int| i + 2 <= j < end - 1 ==> is_dec_digit(t@[j])
        },
{
    let n = t.len();
    let ghost s = t@.skip(i as int);
    proof {
        assert(s.len() == n - i);
    }
    if t[i] != '<' {
        return None;
    }
    if i + 1 >= n || t[i + 1] != '#' {
        return None;
    }
    let ghost s2 = t@.skip(i as int + 2);
    proof {
        assert(s.skip(2) =~= s2);
    }
    let mut j: usize = i + 2;
    while j < n
        invariant_except_break
            n == t@.len(),
            i + 2 <= j <= n,
            digit_run_len(s2) == (j - i - 2) + digit_run_len(t@.skip(j as int)),
            forall|k: int| i + 2 <= k < j ==> is_dec_digit(t@[k]),
        ensures
            n == t@.len(),
            i + 2 <= j <= n,
            digit_run_len(s2) == j - i - 2,
            forall|k: int| i + 2 <= k < j ==> is_dec_digit(t@[k]),
            j < n ==> !is_dec_digit(t@[j as int]),
        decreases n - j,
    {
        proof {
            assert(t@.skip(j as int)[0] == t@[j as int]);
            assert(t@.skip(j as int).drop_first() =~= t@.skip(j as int + 1));
        }
        if !dec_digit(t[j]) {
            break ;
        }
        j = j + 1;
    }
    proof {
        if j == n {
            assert(t@.skip(n as int) =~= Seq::<char>::empty());
        }
    }
    if j == i + 2 {
        // no digits follow `<#`
        return None;
    }
    if j < n && t[j] == '>' {
        proof {
            assert(s[0] == t@[i as int]);
            assert(s[1] == t@[i as int + 1]);
            assert(s[2 + digit_run_len(s.skip(2))] == t@[j as int]);
            assert(chan_token_at_head(s));
            assert(chan_token_digits(s) =~= t@.subrange(i + 2, j as int));
        }
        Some(j + 1)
    } else {
        proof {
            assert(!chan_token_at_head(s));
        }
        None
    }
}

/// Substitutes every channel-reference token in `t` for the directory's
/// display name of the referenced channel, or empty text when the lookup
/// misses; all other characters are kept verbatim.
pub fn substitute_channel_refs(t: &Vec<char>, dir: &Directory) -> (r: Vec<char>)
    ensures
        r@ == resolve_channel_refs(t@, *dir),
{
    let n = t.len();
    let mut out: Vec<char> = Vec::new();
    let mut i: usize = 0;
    proof {
        assert(t@.skip(0) =~= t@);
        assert(Seq::<char>::empty() + resolve_channel_refs(t@, *dir) =~= resolve_channel_refs(
            t@,
            *dir,
        ));
    }
    while i < n
        invariant
            n == t@.len(),
            i <= n,
            resolve_channel_refs(t@, *dir) == out@ + resolve_channel_refs(t@.skip(i as int), *dir),
        decreases n - i,
    {
        let ghost s = t@.skip(i as int);
        match chan_token_end_at(t, i) {
            Some(end) => {
                let ghost ds = chan_token_digits(s);
                let ghost prev = out@;
                let name_opt = match parse_u64_digits(t, i + 2, end - 1) {
                    Some(id) => dir.resolve_channel_name(id),
                    None => None,
                };
                match name_opt {
                    Some(name) => {
                        let nv = to_chars(name.as_str());
                        push_all(&mut out, &nv);
                    },
                    None => {},
                }
                proof {
                    assert(out@ == prev + chan_replacement(ds, *dir));
                    assert(s.skip(chan_token_end(s)) =~= t@.skip(end as int));
                    assert((prev + chan_replacement(ds, *dir)) + resolve_channel_refs(
                        t@.skip(end as int),
                        *dir,
                    ) =~= prev + (chan_replacement(ds, *dir) + resolve_channel_refs(
                        t@.skip(end as int),
                        *dir,
                    )));
                }
                i = end;
            },
            None => {
                let ghost prev = out@;
                out.push(t[i]);
                proof {
                    assert(s[0] == t@[i as int]);
                    assert(s.drop_first() =~= t@.skip(i as int + 1));
                    assert(prev.push(t@[i as int]) + resolve_channel_refs(
                        t@.skip(i as int + 1),
                        *dir,
                    ) =~= prev + (seq![t@[i as int]] + resolve_channel_refs(
                        t@.skip(i as int + 1),
                        *dir,
                    )));
                }
                i = i + 1;
            },
        }
    }
    proof {
        assert(t@.skip(n as int) =~= Seq::<char>::empty());
        assert(out@ + Seq::<char>::empty() =~= out@);
    }
    out
}

/// The channel ids referenced by the tokens of `t`, in token order; a token
/// whose digits exceed `u64` is skipped, as no lookup can serve it.
pub open spec fn chan_ref_ids(t: Seq<char>) -> Seq<u64>
    decreases t.len(),
{
    if t.len() == 0 {
        Seq::empty()
    } else if chan_token_at_head(t) {
        let ds = chan_token_digits(t);
        let rest = chan_ref_ids(t.skip(chan_token_end(t)));
        if digits_val(ds) <= u64::MAX {
            seq![(digits_val(ds) as u64)] + rest
        } else {
            rest
        }
    } else {
        chan_ref_ids(t.drop_first())
    }
}

/// The channel pass consults nothing beyond the referenced ids: two
/// directories that agree on every id `chan_ref_ids` reports resolve the
/// text identically.  Looking up exactly those ids beforehand therefore
/// suffices.
pub proof fn lemma_resolve_channels_needs_only_ref_ids(t: Seq<char>, d1: Directory, d2: Directory)
    requires
        forall|i: int|
            0 <= i < chan_ref_ids(t).len() ==> assoc_lookup(d1.channels@, #[trigger] chan_ref_ids(
                t,
            )[i]) == assoc_lookup(d2.channels@, chan_ref_ids(t)[i]),
    ensures
        resolve_channel_refs(t, d1) == resolve_channel_refs(t, d2),
    decreases t.len(),
{
    if t.len() == 0 {
    } else if chan_token_at_head(t) {
        let ds = chan_token_digits(t);
        let rest_text = t.skip(chan_token_end(t));
        let rest = chan_ref_ids(rest_text);
        if digits_val(ds) <= u64::MAX {
            let id = digits_val(ds) as u64;
            assert(chan_ref_ids(t) == seq![id] + rest);
            assert(chan_ref_ids(t)[0] == id);
            assert(assoc_lookup(d1.channels@, id) == assoc_lookup(d2.channels@, id));
            assert(chan_replacement(ds, d1) == chan_replacement(ds, d2));
            assert forall|i: int|
                0 <= i < rest.len() implies assoc_lookup(
                d1.channels@,
                #[trigger] rest[i],
            ) == assoc_lookup(d2.channels@, rest[i]) by {
                assert(chan_ref_ids(t)[i + 1] == rest[i]);
            }
        } else {
            assert(chan_ref_ids(t) == rest);
            assert(chan_replacement(ds, d1) == chan_replacement(ds, d2));
            assert forall|i: int|
                0 <= i < rest.len() implies assoc_lookup(
                d1.channels@,
                #[trigger] rest[i],
            ) == assoc_lookup(d2.channels@, rest[i]) by {
                assert(chan_ref_ids(t)[i] == rest[i]);
            }
        }
        lemma_resolve_channels_needs_only_ref_ids(rest_text, d1, d2);
    } else {
        lemma_resolve_channels_needs_only_ref_ids(t.drop_first(), d1, d2);
    }
}

/// Collects the channel ids referenced in `text`, in token order, so the
/// caller can look their names up before resolving.
pub fn channel_ref_ids(text: &str) -> (r: Vec<u64>)
    ensures
        r@ == chan_ref_ids(text@),
{
    let t = to_chars(text);
    let n = t.len();
    let mut out: Vec<u64> = Vec::new();
    let mut i: usize = 0;
    proof {
        assert(t@.skip(0) =~= t@);
        assert(t@ == text@);
        assert(Seq::<u64>::empty() + chan_ref_ids(text@) =~= chan_ref_ids(text@));
    }
    while i < n
        invariant
            n == t@.len(),
            t@ == text@,
            i <= n,
            chan_ref_ids(text@) == out@ + chan_ref_ids(t@.skip(i as int)),
        decreases n - i,
    {
        let ghost s = t@.skip(i as int);
        match chan_token_end_at(&t, i) {
            Some(end) => {
                let ghost prev = out@;
                match parse_u64_digits(&t, i + 2, end - 1) {
                    Some(id) => {
                        out.push(id);
                        proof {
                            assert(prev.push(id) =~= prev + seq![id]);
                        }
                    },
                    None => {},
                }
                proof {
                    assert(s.skip(chan_token_end(s)) =~= t@.skip(end as int));
                    let rest = chan_ref_ids(t@.skip(end as int));
                    if digits_val(chan_token_digits(s)) <= u64::MAX {
                        assert((prev + seq![(digits_val(chan_token_digits(s)) as u64)]) + rest
                            =~= prev + (seq![(digits_val(chan_token_digits(s)) as u64)] + rest));
                    }
                }
                i = end;
            },
            None => {
                proof {
                    assert(s.drop_first() =~= t@.skip(i as int + 1));
                }
                i = i + 1;
            },
        }
    }
    proof {
        assert(t@.skip(n as int) =~= Seq::<char>::empty());
        assert(out@ + Seq::<u64>::empty() =~= out@);
    }
    out
}

/// Whether `t` begins with `p`.
pub open spec fn starts_with(t: Seq<char>, p: Seq<char>) -> bool {
    occurs_at(t, p, 0)
}

/// Whether `t` holds no whitespace character.
pub open spec fn no_space(t: Seq<char>) -> bool {
    forall|i: int| 0 <= i < t.len() ==> !is_space_char(t[i])
}

/// Whether the whole text is one URL: it begins with a web scheme, has at
/// least one character after the scheme, and holds no whitespace — so a URL
/// pattern's first match spans the entire text.
pub open spec fn is_pure_url(t: Seq<char>) -> bool {
    (starts_with(t, "http://"@) && t.len() > "http://"@.len() && no_space(t)) || (starts_with(
        t,
        "https://"@,
    ) && t.len() > "https://"@.len() && no_space(t))
}

/// Whether `t` begins with `p` (executable).
fn has_char_prefix(t: &Vec<char>, p: &Vec<char>) -> (r: bool)
    ensures
        r == starts_with(t@, p@),
{
    if t.len() < p.len() {
        return false;
    }
    match_at(t, p, 0)
}

/// Whether `t` holds no whitespace character (executable).
fn no_space_chars(t: &Vec<char>) -> (r: bool)
    ensures
        r == no_space(t@),
{
    let n = t.len();
    let mut i: usize = 0;
    while i < n
        invariant
            n == t@.len(),
            i <= n,
            forall|j: int| 0 <= j < i ==> !is_space_char(t@[j]),
        decreases n - i,
    {
        if space_char(t[i]) {
            return false;
        }
        i = i + 1;
    }
    true
}

/// Drops text that is nothing but a URL; any other text passes unchanged.
pub fn remove_urls(content: &str) -> (r: Option<String>)
    ensures
        (r is None) == is_pure_url(content@),
        r matches Some(s) ==> s@ == content@,
{
    let cs = to_chars(content);
    let p1 = to_chars("http://");
    let p2 = to_chars("https://");
    let pure = ((has_char_prefix(&cs, &p1) && cs.len() > p1.len()) || (has_char_prefix(&cs, &p2)
        && cs.len() > p2.len())) && no_space_chars(&cs);
    if pure {
        None
    } else {
        Some(content.to_owned())
    }
}

/// The plain textual reference form for user `id`.
pub open spec fn user_token_plain(id: u64) -> Seq<char> {
    seq!['<', '@'] + dec_digits_of(id as nat) + seq!['>']
}

/// The nickname textual reference form for user `id`.
pub open spec fn user_token_nick(id: u64) -> Seq<char> {
    seq!['<', '@', '!'] + dec_digits_of(id as nat) + seq!['>']
}

/// The textual reference form for role `id`.
pub open spec fn role_token(id: u64) -> Seq<char> {
    seq!['<', '@', '&'] + dec_digits_of(id as nat) + seq!['>']
}

/// `t` after the user-mention pass: for each attached mention entity in
/// order, both reference forms are replaced by the user's display name.
pub open spec fn resolve_user_mentions(t: Seq<char>, ms: Seq<UserMention>) -> Seq<char>
    decreases ms.len(),
{
    if ms.len() == 0 {
        t
    } else {
        let t1 = replace_all(t, user_token_plain(ms[0].id), ms[0].name@);
        let t2 = replace_all(t1, user_token_nick(ms[0].id), ms[0].name@);
        resolve_user_mentions(t2, ms.drop_first())
    }
}

/// `t` after the role-mention pass: each attached role id whose name the
/// guild's directory holds is replaced; without a guild, or on a lookup
/// miss, the text is left untouched.
pub open spec fn resolve_role_mentions(
    t: Seq<char>,
    roles: Seq<u64>,
    has_guild: bool,
    dir: Directory,
) -> Seq<char>
    decreases roles.len(),
{
    if roles.len() == 0 {
        t
    } else {
        let t1 = if !has_guild {
            t
        } else {
            match assoc_lookup(dir.roles@, roles[0]) {
                Some(name) => replace_all(t, role_token(roles[0]), name),
                None => t,
            }
        };
        resolve_role_mentions(t1, roles.drop_first(), has_guild, dir)
    }
}

/// Builds the token `'<' '@' mid digits '>'`, where `mid` is empty for the
/// plain form, `!` for the nickname form, `&` for the role form.
fn build_token(mid: Option<char>, id: u64) -> (r: Vec<char>)
    ensures
        mid is None ==> r@ == user_token_plain(id),
        mid == Some('!') ==> r@ == user_token_nick(id),
        mid == Some('&') ==> r@ == role_token(id),
{
    let mut pat: Vec<char> = Vec::new();
    pat.push('<');
    pat.push('@');
    match mid {
        Some(c) => pat.push(c),
        None => {},
    }
    let digits = u64_to_dec_chars(id);
    push_all(&mut pat, &digits);
    pat.push('>');
    proof {
        if mid is None {
            assert(pat@ =~= user_token_plain(id));
        }
        if mid == Some('!') {
            assert(pat@ =~= user_token_nick(id));
        }
        if mid == Some('&') {
            assert(pat@ =~= role_token(id));
        }
    }
    pat
}

/// Runs the user-mention pass on `t`.
pub fn substitute_user_mentions(t: &Vec<char>, mentions: &Vec<UserMention>) -> (r: Vec<char>)
    ensures
        r@ == resolve_user_mentions(t@, mentions@),
{
    let mut cur: Vec<char> = Vec::new();
    push_all(&mut cur, t);
    proof {
        assert(Seq::<char>::empty() + t@ =~= t@);
        assert(mentions@.skip(0) =~= mentions@);
    }
    let n = mentions.len();
    let mut i: usize = 0;
    while i < n
        invariant
            n == mentions@.len(),
            i <= n,
            resolve_user_mentions(t@, mentions@) == resolve_user_mentions(
                cur@,
                mentions@.skip(i as int),
            ),
        decreases n - i,
    {
        proof {
            assert(mentions@.skip(i as int)[0] == mentions@[i as int]);
            assert(mentions@.skip(i as int).drop_first() =~= mentions@.skip(i as int + 1));
        }
        let id = mentions[i].id;
        let name = to_chars(mentions[i].name.as_str());
        let pat_plain = build_token(None, id);
        let step1 = replace_all_chars(&cur, &pat_plain, &name);
        let pat_nick = build_token(Some('!'), id);
        cur = replace_all_chars(&step1, &pat_nick, &name);
        i = i + 1;
    }
    proof {
        assert(mentions@.skip(n as int) =~= Seq::<UserMention>::empty());
    }
    cur
}

/// Runs the role-mention pass on `t`.
pub fn substitute_role_mentions(
    t: &Vec<char>,
    roles: &Vec<u64>,
    has_guild: bool,
    dir: &Directory,
) -> (r: Vec<char>)
    ensures
        r@ == resolve_role_mentions(t@, roles@, has_guild, *dir),
{
    let mut cur: Vec<char> = Vec::new();
    push_all(&mut cur, t);
    proof {
        assert(Seq::<char>::empty() + t@ =~= t@);
        assert(roles@.skip(0) =~= roles@);
    }
    let n = roles.len();
    let mut i: usize = 0;
    while i < n
        invariant
            n == roles@.len(),
            i <= n,
            resolve_role_mentions(t@, roles@, has_guild, *dir) == resolve_role_mentions(
                cur@,
                roles@.skip(i as int),
                has_guild,
                *dir,
            ),
        decreases n - i,
    {
        proof {
            assert(roles@.skip(i as int)[0] == roles@[i as int]);
            assert(roles@.skip(i as int).drop_first() =~= roles@.skip(i as int + 1));
        }
        let id = roles[i];
        if has_guild {
            match dir.resolve_role(id) {
                Some(name) => {
                    let nv = to_chars(name.as_str());
                    let pat = build_token(Some('&'), id);
                    cur = replace_all_chars(&cur, &pat, &nv);
                },
                None => {},
            }
        }
        i = i + 1;
    }
    proof {
        assert(roles@.skip(n as int) =~= Seq::<u64>::empty());
    }
    cur
}

/// The resolved text of `ev`: the user-mention pass, then the channel pass,
/// then the role pass, each scanning the output of the one before.
pub open spec fn spec_resolve_mentions(ev: InboundEvent, dir: Directory) -> Seq<char> {
    let t1 = resolve_user_mentions(ev.text@, ev.mentions@);
    let t2 = resolve_channel_refs(t1, dir);
    resolve_role_mentions(t2, ev.role_mentions@, ev.guild_id is Some, dir)
}

/// Resolves every mention token of `ev` into display text, consulting `dir`
/// for channel and role names.
pub fn replace_mentions(ev: &InboundEvent, dir: &Directory) -> (r: String)
    ensures
        r@ == spec_resolve_mentions(*ev, *dir),
{
    let t0 = to_chars(ev.text.as_str());
    let t1 = substitute_user_mentions(&t0, &ev.mentions);
    let t2 = substitute_channel_refs(&t1, dir);
    let t3 = substitute_role_mentions(&t2, &ev.role_mentions, ev.guild_id.is_some(), dir);
    chars_to_string(&t3)
}

/// An occurrence of a pattern is an occurrence of each of its prefixes.
pub proof fn lemma_occurs_prefix(t: Seq<char>, pat: Seq<char>, p: Seq<char>)
    requires
        p.len() <= pat.len(),
        p == pat.subrange(0, p.len() as int),
        occurs(t, pat),
    ensures
        occurs(t, p),
{
    let i = choose|i: int| occurs_at(t, pat, i);
    assert(t.subrange(i, i + p.len()) =~= p) by {
        assert forall|k: int| 0 <= k < p.len() implies t.subrange(i, i + p.len())[k] == p[k] by {
            assert(t.subrange(i, i + pat.len() as int)[k] == t[i + k]);
            assert(pat.subrange(0, p.len() as int)[k] == pat[k]);
        }
    }
    assert(occurs_at(t, p, i));
}

/// Text in which `<` is never followed by `#` holds no channel token, and
/// the channel pass leaves it unchanged.
pub proof fn lemma_channel_pass_token_free(t: Seq<char>, dir: Directory)
    requires
        !occurs(t, seq!['<', '#']),
    ensures
        resolve_channel_refs(t, dir) == t,
    decreases t.len(),
{
    if t.len() == 0 {
        assert(t =~= Seq::<char>::empty());
    } else if chan_token_at_head(t) {
        assert(t.subrange(0, 2) =~= seq!['<', '#']);
        assert(occurs_at(t, seq!['<', '#'], 0));
    } else {
        assert forall|i: int| !occurs_at(t.drop_first(), seq!['<', '#'], i) by {
            if occurs_at(t.drop_first(), seq!['<', '#'], i) {
                assert(t.drop_first().subrange(i, i + 2) =~= t.subrange(i + 1, i + 3));
                assert(occurs_at(t, seq!['<', '#'], i + 1));
            }
        }
        lemma_channel_pass_token_free(t.drop_first(), dir);
        assert(seq![t[0]] + t.drop_first() =~= t);
    }
}

/// Every mention token starts with `<` followed by `@`.
proof fn lemma_mention_token_prefix(id: u64)
    ensures
        user_token_plain(id).len() >= 2,
        user_token_plain(id).subrange(0, 2) == seq!['<', '@'],
        user_token_nick(id).len() >= 2,
        user_token_nick(id).subrange(0, 2) == seq!['<', '@'],
        role_token(id).len() >= 2,
        role_token(id).subrange(0, 2) == seq!['<', '@'],
{
    assert(user_token_plain(id).subrange(0, 2) =~= seq!['<', '@']);
    assert(user_token_nick(id).subrange(0, 2) =~= seq!['<', '@']);
    assert(role_token(id).subrange(0, 2) =~= seq!['<', '@']);
}

/// Text with no `<@` anywhere is left unchanged by the user-mention pass.
pub proof fn lemma_user_pass_token_free(t: Seq<char>, ms: Seq<UserMention>)
    requires
        !occurs(t, seq!['<', '@']),
    ensures
        resolve_user_mentions(t, ms) == t,
    decreases ms.len(),
{
    if ms.len() > 0 {
        lemma_mention_token_prefix(ms[0].id);
        if occurs(t, user_token_plain(ms[0].id)) {
            lemma_occurs_prefix(t, user_token_plain(ms[0].id), seq!['<', '@']);
        }
        lemma_replace_all_absent(t, user_token_plain(ms[0].id), ms[0].name@);
        if occurs(t, user_token_nick(ms[0].id)) {
            lemma_occurs_prefix(t, user_token_nick(ms[0].id), seq!['<', '@']);
        }
        lemma_replace_all_absent(t, user_token_nick(ms[0].id), ms[0].name@);
        lemma_user_pass_token_free(t, ms.drop_first());
    }
}

/// Text with no `<@` anywhere is left unchanged by the role-mention pass.
pub proof fn lemma_role_pass_token_free(
    t: Seq<char>,
    roles: Seq<u64>,
    has_guild: bool,
    dir: Directory,
)
    requires
        !occurs(t, seq!['<', '@']),
    ensures
        resolve_role_mentions(t, roles, has_guild, dir) == t,
    decreases roles.len(),
{
    if roles.len() > 0 {
        lemma_mention_token_prefix(roles[0]);
        if occurs(t, role_token(roles[0])) {
            lemma_occurs_prefix(t, role_token(roles[0]), seq!['<', '@']);
        }
        if has_guild {
            match assoc_lookup(dir.roles@, roles[0]) {
                Some(name) => {
                    lemma_replace_all_absent(t, role_token(roles[0]), name);
                },
                None => {},
            }
        }
        lemma_role_pass_token_free(t, roles.drop_first(), has_guild, dir);
    }
}

/// Mention resolution is the identity on already-resolved text: an event
/// whose text holds no reference token (no `<@` and no `<#` anywhere) comes
/// back unchanged, whatever the attached entities and the directory hold.
pub proof fn lemma_resolve_mentions_token_free(ev: InboundEvent, dir: Directory)
    requires
        !occurs(ev.text@, seq!['<', '@']),
        !occurs(ev.text@, seq!['<', '#']),
    ensures
        spec_resolve_mentions(ev, dir) == ev.text@,
{
    lemma_user_pass_token_free(ev.text@, ev.mentions@);
    lemma_channel_pass_token_free(ev.text@, dir);
    lemma_role_pass_token_free(ev.text@, ev.role_mentions@, ev.guild_id is Some, dir);
}

/// The channel pass copies a token-free prefix verbatim: text before the
/// first `<` is preserved character for character, and resolution continues
/// independently after it.
pub proof fn lemma_resolve_channels_clean_prefix(a: Seq<char>, b: Seq<char>, dir: Directory)
    requires
        forall|i: int| 0 <= i < a.len() ==> a[i] != '<',
    ensures
        resolve_channel_refs(a + b, dir) == a + resolve_channel_refs(b, dir),
    decreases a.len(),
{
    if a.len() == 0 {
        assert(a + b =~= b);
        assert(a + resolve_channel_refs(b, dir) =~= resolve_channel_refs(b, dir));
    } else {
        let t = a + b;
        assert(t[0] == a[0]);
        assert(!chan_token_at_head(t));
        assert(t.drop_first() =~= a.drop_first() + b);
        lemma_resolve_channels_clean_prefix(a.drop_first(), b, dir);
        assert(seq![t[0]] + (a.drop_first() + resolve_channel_refs(b, dir)) =~= a
            + resolve_channel_refs(b, dir));
    }
}

/// A run of digits followed by a non-digit is exactly the digit run.
proof fn lemma_digit_run_of_digits(ds: Seq<char>, rest: Seq<char>)
    requires
        forall|i: int| 0 <= i < ds.len() ==> is_dec_digit(ds[i]),
        rest.len() > 0,
        !is_dec_digit(rest[0]),
    ensures
        digit_run_len(ds + rest) == ds.len(),
    decreases ds.len(),
{
    if ds.len() == 0 {
        assert(ds + rest =~= rest);
    } else {
        assert((ds + rest).drop_first() =~= ds.drop_first() + rest);
        lemma_digit_run_of_digits(ds.drop_first(), rest);
    }
}

/// Channel-reference substitution preserves every character outside matched
/// tokens verbatim: a matched token between a `<`-free span and arbitrary
/// remaining text is spliced out alone, the span kept as it stands, and the
/// remainder resolved independently.  Applied repeatedly this covers any
/// interleaving of matched and unmatched spans.
pub proof fn lemma_resolve_channels_splice(
    a: Seq<char>,
    ds: Seq<char>,
    b: Seq<char>,
    dir: Directory,
)
    requires
        forall|i: int| 0 <= i < a.len() ==> a[i] != '<',
        ds.len() >= 1,
        forall|i: int| 0 <= i < ds.len() ==> is_dec_digit(ds[i]),
    ensures
        resolve_channel_refs(a + (seq!['<', '#'] + ds + seq!['>']) + b, dir) == a
            + chan_replacement(ds, dir) + resolve_channel_refs(b, dir),
{
    let tok = seq!['<', '#'] + ds + seq!['>'];
    let t = tok + b;
    assert(is_dec_digit('>') == false);
    assert(t.skip(2) =~= ds + (seq!['>'] + b));
    lemma_digit_run_of_digits(ds, seq!['>'] + b);
    assert(digit_run_len(t.skip(2)) == ds.len());
    assert(t[0] == '<');
    assert(t[1] == '#');
    assert(t[2 + ds.len() as int] == '>');
    assert(chan_token_at_head(t));
    assert(chan_token_digits(t) =~= ds);
    assert(t.skip(chan_token_end(t)) =~= b);
    assert(resolve_channel_refs(t, dir) == chan_replacement(ds, dir) + resolve_channel_refs(
        b,
        dir,
    ));
    lemma_resolve_channels_clean_prefix(a, t, dir);
    assert(a + (seq!['<', '#'] + ds + seq!['>']) + b =~= a + t);
    assert(a + (chan_replacement(ds, dir) + resolve_channel_refs(b, dir)) =~= a + chan_replacement(
        ds,
        dir,
    ) + resolve_channel_refs(b, dir));
}

/// The spans `[start, end)` of the channel tokens the left-to-right scan
/// matches in `t` from position `from` on, in order and without overlap.
pub open spec fn chan_spans_from(t: Seq<char>, from: int) -> Seq<(int, int)>
    recommends
        0 <= from <= t.len(),
    decreases t.len() - from,
    when 0 <= from <= t.len()
{
    if from >= t.len() {
        Seq::empty()
    } else if chan_token_at_head(t.skip(from)) {
        let e = from + chan_token_end(t.skip(from));
        seq![(from, e)] + chan_spans_from(t, e)
    } else {
        chan_spans_from(t, from + 1)
    }
}

/// The spans of the channel tokens the scan matches in `t`.
pub open spec fn chan_spans(t: Seq<char>) -> Seq<(int, int)> {
    chan_spans_from(t, 0)
}

/// Whether some span of `spans` covers position `p`.
pub open spec fn span_covers(spans: Seq<(int, int)>, p: int) -> bool {
    exists|i: int| 0 <= i < spans.len() && (#[trigger] spans[i]).0 <= p < spans[i].1
}

/// `t` from position `from` on with the given token spans substituted: the
/// text before and between the spans is kept verbatim and in order, and each
/// span is replaced by the directory's text for the digits it holds.
pub open spec fn splice_spans(
    t: Seq<char>,
    spans: Seq<(int, int)>,
    from: int,
    dir: Directory,
) -> Seq<char>
    decreases spans.len(),
{
    if spans.len() == 0 {
        t.subrange(from, t.len() as int)
    } else {
        t.subrange(from, spans[0].0) + chan_replacement(
            t.subrange(spans[0].0 + 2, spans[0].1 - 1),
            dir,
        ) + splice_spans(t, spans.drop_first(), spans[0].1, dir)
    }
}

/// The scan's spans lie in order inside the text, never overlap, and each is
/// a match of the channel-token pattern at its start position.
pub proof fn lemma_chan_spans_wf(t: Seq<char>, from: int)
    requires
        0 <= from <= t.len(),
    ensures
        forall|i: int|
            0 <= i < chan_spans_from(t, from).len() ==> from <= (#[trigger] chan_spans_from(
                t,
                from,
            )[i]).0 && chan_spans_from(t, from)[i].0 + 4 <= chan_spans_from(t, from)[i].1
                <= t.len(),
        forall|i: int|
            0 <= i && i + 1 < chan_spans_from(t, from).len() ==> (#[trigger] chan_spans_from(
                t,
                from,
            )[i]).1 <= chan_spans_from(t, from)[i + 1].0,
        forall|i: int|
            0 <= i < chan_spans_from(t, from).len() ==> chan_token_at_head(
                t.skip((#[trigger] chan_spans_from(t, from)[i]).0),
            ) && chan_spans_from(t, from)[i].1 == chan_spans_from(t, from)[i].0 + chan_token_end(
                t.skip(chan_spans_from(t, from)[i].0),
            ),
    decreases t.len() - from,
{
    let spans = chan_spans_from(t, from);
    if from >= t.len() {
    } else if chan_token_at_head(t.skip(from)) {
        let e = from + chan_token_end(t.skip(from));
        let rest = chan_spans_from(t, e);
        assert(t.skip(from).len() == t.len() - from);
        assert(from + 4 <= e <= t.len());
        lemma_chan_spans_wf(t, e);
        assert(spans == seq![(from, e)] + rest);
        assert forall|i: int|
            0 <= i < chan_spans_from(t, from).len() implies from <= (#[trigger] chan_spans_from(
            t,
            from,
        )[i]).0 && chan_spans_from(t, from)[i].0 + 4 <= chan_spans_from(t, from)[i].1
            <= t.len() by {
            if i == 0 {
                assert(spans[0] == (from, e));
            } else {
                assert(spans[i] == rest[i - 1]);
                assert(e <= rest[i - 1].0 && rest[i - 1].0 + 4 <= rest[i - 1].1 <= t.len());
            }
        }
        assert forall|i: int|
            0 <= i && i + 1 < chan_spans_from(t, from).len() implies (#[trigger] chan_spans_from(
            t,
            from,
        )[i]).1 <= chan_spans_from(t, from)[i + 1].0 by {
            if i == 0 {
                assert(spans[0] == (from, e));
                assert(spans[1] == rest[0]);
                assert(e <= rest[0].0);
            } else {
                assert(spans[i] == rest[i - 1]);
                assert(spans[i + 1] == rest[i]);
                assert(rest[i - 1].1 <= rest[i].0);
            }
        }
        assert forall|i: int|
            0 <= i < chan_spans_from(t, from).len() implies chan_token_at_head(
            t.skip((#[trigger] chan_spans_from(t, from)[i]).0),
        ) && chan_spans_from(t, from)[i].1 == chan_spans_from(t, from)[i].0 + chan_token_end(
            t.skip(chan_spans_from(t, from)[i].0),
        ) by {
            if i == 0 {
                assert(spans[0] == (from, e));
            } else {
                assert(spans[i] == rest[i - 1]);
                assert(chan_token_at_head(t.skip(rest[i - 1].0)) && rest[i - 1].1 == rest[i - 1].0
                    + chan_token_end(t.skip(rest[i - 1].0)));
            }
        }
    } else {
        lemma_chan_spans_wf(t, from + 1);
        assert(chan_spans_from(t, from) == chan_spans_from(t, from + 1));
        assert forall|i: int|
            0 <= i < chan_spans_from(t, from).len() implies from <= (#[trigger] chan_spans_from(
            t,
            from,
        )[i]).0 && chan_spans_from(t, from)[i].0 + 4 <= chan_spans_from(t, from)[i].1
            <= t.len() by {
            assert(chan_spans_from(t, from)[i] == chan_spans_from(t, from + 1)[i]);
        }
        assert forall|i: int|
            0 <= i && i + 1 < chan_spans_from(t, from).len() implies (#[trigger] chan_spans_from(
            t,
            from,
        )[i]).1 <= chan_spans_from(t, from)[i + 1].0 by {
            assert(chan_spans_from(t, from)[i] == chan_spans_from(t, from + 1)[i]);
            assert(chan_spans_from(t, from)[i + 1] == chan_spans_from(t, from + 1)[i + 1]);
        }
        assert forall|i: int|
            0 <= i < chan_spans_from(t, from).len() implies chan_token_at_head(
            t.skip((#[trigger] chan_spans_from(t, from)[i]).0),
        ) && chan_spans_from(t, from)[i].1 == chan_spans_from(t, from)[i].0 + chan_token_end(
            t.skip(chan_spans_from(t, from)[i].0),
        ) by {
            assert(chan_spans_from(t, from)[i] == chan_spans_from(t, from + 1)[i]);
        }
    }
}

/// Channel substitution splices and nothing more: the output is exactly the
/// text outside the scan's matched spans, kept verbatim and in order, with
/// each matched span replaced by the directory's text for its digits — for
/// arbitrary interleavings of matched and unmatched spans.
pub proof fn lemma_resolve_channels_is_splice_from(t: Seq<char>, from: int, dir: Directory)
    requires
        0 <= from <= t.len(),
    ensures
        resolve_channel_refs(t.skip(from), dir) == splice_spans(
            t,
            chan_spans_from(t, from),
            from,
            dir,
        ),
    decreases t.len() - from,
{
    let s = t.skip(from);
    let spans = chan_spans_from(t, from);
    if from >= t.len() {
        assert(s =~= Seq::<char>::empty());
        assert(t.subrange(from, t.len() as int) =~= Seq::<char>::empty());
    } else if chan_token_at_head(s) {
        let e_rel = chan_token_end(s);
        let e = from + e_rel;
        let rest = chan_spans_from(t, e);
        assert(s.len() == t.len() - from);
        assert(from + 4 <= e <= t.len());
        assert(s.skip(e_rel) =~= t.skip(e));
        lemma_resolve_channels_is_splice_from(t, e, dir);
        assert(spans == seq![(from, e)] + rest);
        assert(spans[0] == (from, e));
        assert(spans.drop_first() =~= rest);
        assert(chan_token_digits(s) =~= t.subrange(from + 2, e - 1));
        assert(t.subrange(from, from) =~= Seq::<char>::empty());
        let repl = chan_replacement(t.subrange(from + 2, e - 1), dir);
        let tail = splice_spans(t, rest, e, dir);
        assert((Seq::<char>::empty() + repl) + tail =~= repl + tail);
    } else {
        assert(s[0] == t[from]);
        assert(s.drop_first() =~= t.skip(from + 1));
        lemma_resolve_channels_is_splice_from(t, from + 1, dir);
        assert(spans == chan_spans_from(t, from + 1));
        if spans.len() == 0 {
            assert(t.subrange(from, t.len() as int) =~= seq![t[from]] + t.subrange(
                from + 1,
                t.len() as int,
            ));
        } else {
            lemma_chan_spans_wf(t, from + 1);
            let s0 = spans[0].0;
            let e0 = spans[0].1;
            assert(from + 1 <= s0 && s0 + 4 <= e0 <= t.len());
            assert(t.subrange(from, s0) =~= seq![t[from]] + t.subrange(from + 1, s0));
            let repl = chan_replacement(t.subrange(s0 + 2, e0 - 1), dir);
            let tail = splice_spans(t, spans.drop_first(), e0, dir);
            assert(((seq![t[from]] + t.subrange(from + 1, s0)) + repl) + tail =~= seq![t[from]] + ((
            t.subrange(from + 1, s0) + repl) + tail));
        }
    }
}

/// The scan misses nothing: at every position outside the matched spans, no
/// channel token starts — the spans are exactly the left-to-right,
/// non-overlapping matches of the pattern.
pub proof fn lemma_chan_spans_maximal(t: Seq<char>, from: int, p: int)
    requires
        0 <= from <= p < t.len(),
        !span_covers(chan_spans_from(t, from), p),
    ensures
        !chan_token_at_head(t.skip(p)),
    decreases t.len() - from,
{
    let spans = chan_spans_from(t, from);
    if chan_token_at_head(t.skip(from)) {
        let e = from + chan_token_end(t.skip(from));
        let rest = chan_spans_from(t, e);
        assert(t.skip(from).len() == t.len() - from);
        assert(from + 4 <= e <= t.len());
        assert(spans == seq![(from, e)] + rest);
        assert(spans[0] == (from, e));
        if p < e {
            assert(spans[0].0 <= p < spans[0].1);
            assert(span_covers(spans, p));
        } else {
            assert forall|i: int|
                0 <= i < rest.len() implies !((#[trigger] rest[i]).0 <= p < rest[i].1) by {
                assert(spans[i + 1] == rest[i]);
            }
            lemma_chan_spans_maximal(t, e, p);
        }
    } else {
        if p == from {
        } else {
            assert forall|i: int|
                0 <= i < chan_spans_from(t, from + 1).len() implies !((
            #[trigger] chan_spans_from(t, from + 1)[i]).0 <= p < chan_spans_from(
                t,
                from + 1,
            )[i].1) by {
                assert(spans[i] == chan_spans_from(t, from + 1)[i]);
            }
            lemma_chan_spans_maximal(t, from + 1, p);
        }
    }
}

/// The general splice form over the whole text.
pub proof fn lemma_resolve_channels_is_splice(t: Seq<char>, dir: Directory)
    ensures
        resolve_channel_refs(t, dir) == splice_spans(t, chan_spans(t), 0, dir),
{
    assert(t.skip(0) =~= t);
    lemma_resolve_channels_is_splice_from(t, 0, dir);
}

} // verus!
