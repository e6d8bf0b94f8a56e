//! Extraction of invite codes from message text.
//!
//! An invite link is `discord.gg/<code>`, `discord.com/invite/<code>` or
//! `discordapp.com/invite/<code>`, matched without regard to ASCII case and
//! optionally preceded by a scheme and a subdomain (which do not change which
//! codes are found). The code is the longest run of ASCII letters, digits and
//! hyphens after the host. Links are found left to right and never overlap:
//! the search resumes where the previous code ended.

use vstd::prelude::*;

verus! {

pub open spec fn is_code_char(c: char) -> bool {
    ('a' <= c && c <= 'z') || ('A' <= c && c <= 'Z') || ('0' <= c && c <= '9') || c == '-'
}

/// `c` equals the lowercase ASCII character `l` up to ASCII case.
pub open spec fn ci_eq(c: char, l: char) -> bool {
    c == l || ('A' <= c && c <= 'Z' && c as u32 + 32 == l as u32)
}

/// `lit` (lowercase) occurs at `i` in `s`, up to ASCII case.
pub open spec fn matches_at(s: Seq<char>, i: int, lit: Seq<char>) -> bool {
    &&& 0 <= i
    &&& i + lit.len() <= s.len()
    &&& forall|j: int| 0 <= j < lit.len() ==> ci_eq(#[trigger] s[i + j], lit[j])
}

pub open spec fn discord_lit() -> Seq<char> {
    seq!['d', 'i', 's', 'c', 'o', 'r', 'd']
}

pub open spec fn gg_lit() -> Seq<char> {
    seq!['.', 'g', 'g', '/']
}

pub open spec fn com_lit() -> Seq<char> {
    seq!['.', 'c', 'o', 'm', '/', 'i', 'n', 'v', 'i', 't', 'e', '/']
}

pub open spec fn app_lit() -> Seq<char> {
    seq!['a', 'p', 'p', '.', 'c', 'o', 'm', '/', 'i', 'n', 'v', 'i', 't', 'e', '/']
}

/// Length of the invite host (`discord.gg/` and its two other forms) that
/// starts at `i`, or 0 where none does.
pub open spec fn host_len(s: Seq<char>, i: int) -> int {
    if !matches_at(s, i, discord_lit()) {
        0
    } else if matches_at(s, i + 7, gg_lit()) {
        11
    } else if matches_at(s, i + 7, com_lit()) {
        19
    } else if matches_at(s, i + 7, app_lit()) {
        22
    } else {
        0
    }
}

/// An invite link starts at `i`: a host followed by at least one code character.
pub open spec fn link_at(s: Seq<char>, i: int) -> bool {
    host_len(s, i) > 0 && i + host_len(s, i) < s.len() && is_code_char(s[i + host_len(s, i)])
}

/// End of the run of code characters that starts at `k`.
pub open spec fn run_end(s: Seq<char>, k: int) -> int
    decreases s.len() - k,
{
    if 0 <= k < s.len() && is_code_char(s[k]) {
        run_end(s, k + 1)
    } else {
        k
    }
}

/// The codes captured, in order, by scanning `s` from `pos`.
pub open spec fn captures_from(s: Seq<char>, pos: int) -> Seq<Seq<char>>
    decreases s.len() - pos,
{
    if pos < 0 || pos >= s.len() {
        Seq::empty()
    } else if link_at(s, pos) {
        let k = pos + host_len(s, pos);
        let e = run_end(s, k);
        if pos < k <= e <= s.len() {
            seq![s.subrange(k, e)] + captures_from(s, e)
        } else {
            Seq::empty()
        }
    } else {
        captures_from(s, pos + 1)
    }
}

/// Every code captured in `s`, in order of appearance, repeats included.
pub open spec fn captures(s: Seq<char>) -> Seq<Seq<char>> {
    captures_from(s, 0)
}

/// The views of a list of strings.
pub open spec fn views(v: Seq<String>) -> Seq<Seq<char>> {
    v.map_values(|x: String| x@)
}

/// `acc` followed by each element of `xs` that is not already there, in order.
pub open spec fn dedup_append(acc: Seq<Seq<char>>, xs: Seq<Seq<char>>) -> Seq<Seq<char>>
    decreases xs.len(),
{
    if xs.len() == 0 {
        acc
    } else {
        let d = dedup_append(acc, xs.drop_last());
        if d.contains(xs.last()) {
            d
        } else {
            d.push(xs.last())
        }
    }
}

proof fn lemma_run_end(s: Seq<char>, k: int)
    requires
        0 <= k <= s.len(),
    ensures
        k <= run_end(s, k) <= s.len(),
        forall|j: int| k <= j < run_end(s, k) ==> is_code_char(#[trigger] s[j]),
    decreases s.len() - k,
{
    if k < s.len() && is_code_char(s[k]) {
        lemma_run_end(s, k + 1);
    }
}

/// Relies on `impl FromIterator<&char> for String`: the string holds the characters in order.
#[verifier::external_body]
pub(crate) fn string_from_chars(chars: &[char]) -> (r: String)
    ensures
        r@ == chars@,
{
    chars.iter().collect()
}

pub(crate) fn chars_of(text: &str) -> (r: Vec<char>)
    ensures
        r@ == text@,
{
    let mut out: Vec<char> = Vec::new();
    for c in it: text.chars()
        invariant
            out@ == it.seq().subrange(0, it.index() as int),
            it.seq() == text@,
    {
        out.push(c);
    }
    out
}

fn lower_ascii_eq(c: char, l: char) -> (r: bool)
    ensures
        r == ci_eq(c, l),
{
    if c == l {
        true
    } else if 'A' <= c && c <= 'Z' {
        (c as u32) + 32 == l as u32
    } else {
        false
    }
}

fn matches_lit(s: &Vec<char>, i: usize, lit: &Vec<char>) -> (r: bool)
    ensures
        r == matches_at(s@, i as int, lit@),
{
    let slen = s.len();
    if i > slen || lit.len() > slen - i {
        return false;
    }
    let mut j: usize = 0;
    while j < lit.len()
        invariant
            slen == s@.len(),
            i + lit@.len() <= s@.len(),
            j <= lit@.len(),
            forall|t: int| 0 <= t < j ==> ci_eq(#[trigger] s@[i + t], lit@[t]),
        decreases lit@.len() - j,
    {
        if !lower_ascii_eq(s[i + j], lit[j]) {
            return false;
        }
        j = j + 1;
    }
    true
}

fn is_code_char_exec(c: char) -> (r: bool)
    ensures
        r == is_code_char(c),
{
    ('a' <= c && c <= 'z') || ('A' <= c && c <= 'Z') || ('0' <= c && c <= '9') || c == '-'
}

/// The host literals, in the order in which they are tried.
struct Hosts {
    discord: Vec<char>,
    gg: Vec<char>,
    com: Vec<char>,
    app: Vec<char>,
}

impl Hosts {
    spec fn wf(&self) -> bool {
        &&& self.discord@ == discord_lit()
        &&& self.gg@ == gg_lit()
        &&& self.com@ == com_lit()
        &&& self.app@ == app_lit()
    }

    fn new() -> (r: Hosts)
        ensures
            r.wf(),
    {
        let r = Hosts {
            discord: vec!['d', 'i', 's', 'c', 'o', 'r', 'd'],
            gg: vec!['.', 'g', 'g', '/'],
            com: vec!['.', 'c', 'o', 'm', '/', 'i', 'n', 'v', 'i', 't', 'e', '/'],
            app: vec!['a', 'p', 'p', '.', 'c', 'o', 'm', '/', 'i', 'n', 'v', 'i', 't', 'e', '/'],
        };
        assert(r.discord@ =~= discord_lit());
        assert(r.gg@ =~= gg_lit());
        assert(r.com@ =~= com_lit());
        assert(r.app@ =~= app_lit());
        r
    }

    fn host_len(&self, s: &Vec<char>, i: usize) -> (r: usize)
        requires
            self.wf(),
            i <= s@.len(),
        ensures
            r as int == host_len(s@, i as int),
    {
        let slen = s.len();
        if !matches_lit(s, i, &self.discord) {
            0
        } else if i + 7 > slen {
            0
        } else if matches_lit(s, i + 7, &self.gg) {
            11
        } else if matches_lit(s, i + 7, &self.com) {
            19
        } else if matches_lit(s, i + 7, &self.app) {
            22
        } else {
            0
        }
    }
}

fn copy_range(s: &Vec<char>, from: usize, to: usize) -> (r: Vec<char>)
    requires
        from <= to <= s@.len(),
    ensures
        r@ == s@.subrange(from as int, to as int),
{
    let mut out: Vec<char> = Vec::new();
    let mut i: usize = from;
    while i < to
        invariant
            from <= i <= to <= s@.len(),
            out@ == s@.subrange(from as int, i as int),
        decreases to - i,
    {
        out.push(s[i]);
        assert(out@ =~= s@.subrange(from as int, i + 1));
        i = i + 1;
    }
    out
}

proof fn lemma_push_to_set(s: Seq<Seq<char>>, c: Seq<char>)
    ensures
        s.push(c).to_set() == s.to_set().insert(c),
{
    assert(s.push(c).to_set() =~= s.to_set().insert(c)) by {
        assert forall|x: Seq<char>| s.push(c).to_set().contains(x) implies s.to_set().insert(c).contains(x) by {
            let i = choose|i: int| 0 <= i < s.push(c).len() && s.push(c)[i] == x;
            if i < s.len() {
                assert(s[i] == x);
            }
        }
        assert forall|x: Seq<char>| s.to_set().insert(c).contains(x) implies s.push(c).to_set().contains(x) by {
            if x == c {
                assert(s.push(c)[s.len() as int] == x);
            } else {
                let i = choose|i: int| 0 <= i < s.len() && s[i] == x;
                assert(s.push(c)[i] == x);
            }
        }
    }
}

fn contains_code(codes: &Vec<String>, code: &String) -> (r: bool)
    ensures
        r == views(codes@).contains(code@),
{
    let mut i: usize = 0;
    while i < codes.len()
        invariant
            i <= codes@.len(),
            forall|t: int| 0 <= t < i ==> codes@[t]@ != code@,
        decreases codes@.len() - i,
    {
        if codes[i] == *code {
            assert(views(codes@)[i as int] == code@);
            return true;
        }
        i = i + 1;
    }
    proof {
        if views(codes@).contains(code@) {
            let t = choose|t: int| 0 <= t < views(codes@).len() && views(codes@)[t] == code@;
            assert(codes@[t]@ == code@);
        }
    }
    false
}

/// Adds to `codes` each code of `text` that it does not hold yet.
pub fn add_codes(codes: &mut Vec<String>, text: &str)
    requires
        views(old(codes)@).no_duplicates(),
    ensures
        views(final(codes)@).no_duplicates(),
        views(final(codes)@).to_set() == views(old(codes)@).to_set() + captures(text@).to_set(),
        views(final(codes)@) == dedup_append(views(old(codes)@), captures(text@)),
{
    let s = chars_of(text);
    let hosts = Hosts::new();
    let n = s.len();
    let mut pos: usize = 0;
    let ghost seen: Seq<Seq<char>> = Seq::empty();
    while pos < n
        invariant
            hosts.wf(),
            n == s@.len(),
            s@ == text@,
            pos <= n,
            seen + captures_from(s@, pos as int) == captures(s@),
            views(codes@).no_duplicates(),
            views(codes@).to_set() == views(old(codes)@).to_set() + seen.to_set(),
            views(codes@) == dedup_append(views(old(codes)@), seen),
        decreases n - pos,
    {
        let h = hosts.host_len(&s, pos);
        if h > 0 && pos + h < n && is_code_char_exec(s[pos + h]) {
            let k = pos + h;
            let mut e = k;
            while e < n && is_code_char_exec(s[e])
                invariant
                    k <= e <= n,
                    n == s@.len(),
                    run_end(s@, k as int) == run_end(s@, e as int),
                decreases n - e,
            {
                e = e + 1;
            }
            proof {
                lemma_run_end(s@, k as int);
            }
            let piece = copy_range(&s, k, e);
            let code = string_from_chars(piece.as_slice());
            let ghost c = s@.subrange(k as int, e as int);
            proof {
                assert(captures_from(s@, pos as int) == seq![c] + captures_from(s@, e as int));
                assert(seen + captures_from(s@, pos as int) =~= seen.push(c) + captures_from(
                    s@,
                    e as int,
                ));
            }
            proof {
                assert(seen.push(c).drop_last() =~= seen);
            }
            if !contains_code(codes, &code) {
                let ghost before = codes@;
                codes.push(code);
                proof {
                    assert(views(codes@) =~= views(before).push(c));
                    lemma_push_to_set(views(before), c);
                    lemma_push_to_set(seen, c);
                }
            } else {
                proof {
                    lemma_push_to_set(seen, c);
                }
            }
            proof {
                seen = seen.push(c);
            }
            pos = e;
        } else {
            proof {
                assert(captures_from(s@, pos as int) == captures_from(s@, pos + 1));
            }
            pos = pos + 1;
        }
    }
    proof {
        assert(captures_from(s@, n as int) == Seq::<Seq<char>>::empty());
        assert(seen == captures(s@));
    }
}

/// The distinct codes in one message's text, in order of first appearance.
pub fn extract_codes_from_message(content: &str) -> (r: Vec<String>)
    ensures
        views(r@).no_duplicates(),
        views(r@).to_set() == captures(content@).to_set(),
        views(r@) == dedup_append(Seq::empty(), captures(content@)),
{
    let mut codes: Vec<String> = Vec::new();
    proof {
        assert(views(codes@).to_set() =~= Set::<Seq<char>>::empty());
    }
    proof {
        assert(views(codes@) =~= Seq::<Seq<char>>::empty());
    }
    add_codes(&mut codes, content);
    codes
}

/// The set of codes found across several messages.
pub open spec fn codes_of_messages(messages: Seq<Seq<char>>) -> Set<Seq<char>>
    decreases messages.len(),
{
    if messages.len() == 0 {
        Set::empty()
    } else {
        codes_of_messages(messages.drop_last()) + captures(messages.last()).to_set()
    }
}

/// The distinct codes of several messages, in order of first appearance.
pub open spec fn message_codes(messages: Seq<Seq<char>>) -> Seq<Seq<char>>
    decreases messages.len(),
{
    if messages.len() == 0 {
        Seq::empty()
    } else {
        dedup_append(message_codes(messages.drop_last()), captures(messages.last()))
    }
}

/// The distinct codes found across the given message texts: a code linked in
/// several messages appears once.
pub fn extract_codes_from_messages(messages: &Vec<String>) -> (r: Vec<String>)
    ensures
        views(r@).no_duplicates(),
        views(r@).to_set() == codes_of_messages(views(messages@)),
        views(r@) == message_codes(views(messages@)),
{
    let mut codes: Vec<String> = Vec::new();
    proof {
        assert(views(codes@).to_set() =~= Set::<Seq<char>>::empty());
        assert(views(codes@) =~= Seq::<Seq<char>>::empty());
        assert(views(messages@).subrange(0, 0) =~= Seq::<Seq<char>>::empty());
    }
    let mut i: usize = 0;
    while i < messages.len()
        invariant
            i <= messages@.len(),
            views(codes@).no_duplicates(),
            views(codes@).to_set() == codes_of_messages(views(messages@).subrange(0, i as int)),
            views(codes@) == message_codes(views(messages@).subrange(0, i as int)),
        decreases messages@.len() - i,
    {
        add_codes(&mut codes, messages[i].as_str());
        proof {
            let ms = views(messages@);
            assert(ms.subrange(0, i + 1).drop_last() =~= ms.subrange(0, i as int));
            assert(ms.subrange(0, i + 1).last() == messages@[i as int]@);
        }
        i = i + 1;
    }
    proof {
        assert(views(messages@).subrange(0, messages@.len() as int) =~= views(messages@));
    }
    codes
}

} // verus!
