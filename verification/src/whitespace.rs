//! Whitespace classification and normalisation of query text.

use vstd::prelude::*;

verus! {

/// The code points that carry the Unicode `White_Space` property.
pub open spec fn is_whitespace(c: char) -> bool {
    let u = c as u32;
    ||| 0x0009 <= u <= 0x000D
    ||| u == 0x0020
    ||| u == 0x0085
    ||| u == 0x00A0
    ||| u == 0x1680
    ||| 0x2000 <= u <= 0x200A
    ||| u == 0x2028
    ||| u == 0x2029
    ||| u == 0x202F
    ||| u == 0x205F
    ||| u == 0x3000
}

/// The text with every run of whitespace between two words replaced by one
/// space, and with the whitespace before the first word and after the last
/// one removed. It is built up from the left, one character at a time: a
/// whitespace character adds nothing, and any other character is appended,
/// behind one space where at least one whitespace character parts it from the
/// word before it.
pub open spec fn collapsed(s: Seq<char>) -> Seq<char>
    decreases s.len(),
{
    if s.len() == 0 {
        Seq::empty()
    } else {
        let head = collapsed(s.drop_last());
        let c = s.last();
        if is_whitespace(c) {
            head
        } else if head.len() == 0 || !is_whitespace(s[s.len() - 2]) {
            head.push(c)
        } else {
            head.push(' ').push(c)
        }
    }
}

/// `std::string::String::push` appends the character to the end of the
/// string and leaves what was there before unchanged.
pub assume_specification[ String::push ](s: &mut String, ch: char)
    ensures
        final(s)@ == old(s)@.push(ch),
;

/// Tells whether `c` is a whitespace character.
pub fn is_whitespace_char(c: char) -> (b: bool)
    ensures
        b == is_whitespace(c),
{
    let u: u32 = c as u32;
    (0x0009 <= u && u <= 0x000D) || u == 0x0020 || u == 0x0085 || u == 0x00A0 || u == 0x1680 || (
    0x2000 <= u && u <= 0x200A) || u == 0x2028 || u == 0x2029 || u == 0x202F || u == 0x205F || u
        == 0x3000
}

/// Joins the whitespace-separated words of `s` with single spaces.
pub fn trim_whitespace(s: &str) -> (result: String)
    ensures
        result@ == collapsed(s@),
{
    let mut result = String::new();
    let mut after_gap = false;
    let chars = s.chars();
    for c in iter: chars
        invariant
            iter.seq() == s@,
            result@ == collapsed(s@.take(iter.index())),
            iter.index() == 0 ==> !after_gap,
            iter.index() > 0 ==> after_gap == is_whitespace(s@[iter.index() - 1]),
    {
        let ghost i = iter.index();
        assert(s@.take(i + 1).drop_last() == s@.take(i));
        assert(s@.take(i + 1).last() == c);
        if is_whitespace_char(c) {
            after_gap = true;
        } else {
            if after_gap && !result.as_str().is_empty() {
                result.push(' ');
            }
            result.push(c);
            after_gap = false;
        }
    }
    assert(s@.take(s@.len() as int) == s@);
    result
}

/// The text without its line feed characters.
pub open spec fn without_newlines(s: Seq<char>) -> Seq<char> {
    s.filter(|c: char| c != '\n')
}

/// The text without the whitespace at its start.
pub open spec fn trim_start(s: Seq<char>) -> Seq<char>
    decreases s.len(),
{
    if s.len() > 0 && is_whitespace(s[0]) {
        trim_start(s.drop_first())
    } else {
        s
    }
}

/// The text without the whitespace at its end.
pub open spec fn trim_end(s: Seq<char>) -> Seq<char>
    decreases s.len(),
{
    if s.len() > 0 && is_whitespace(s.last()) {
        trim_end(s.drop_last())
    } else {
        s
    }
}

/// The text without the whitespace at either end.
pub open spec fn trimmed(s: Seq<char>) -> Seq<char> {
    trim_end(trim_start(s))
}

/// The one-line form of a query: its line feeds are taken out, so that
/// wrapped lines are joined with nothing between them, the result is trimmed,
/// and every remaining run of whitespace becomes one space.
pub open spec fn normalized(body: Seq<char>) -> Seq<char> {
    collapsed(trimmed(without_newlines(body)))
}

/// Every whitespace character of `t` is a space that stands alone between two
/// characters that are not whitespace.
pub open spec fn single_spaced(t: Seq<char>) -> bool {
    forall|i: int|
        0 <= i < t.len() && is_whitespace(#[trigger] t[i]) ==> {
            &&& t[i] == ' '
            &&& 0 < i < t.len() - 1
            &&& !is_whitespace(t[i - 1])
            &&& !is_whitespace(t[i + 1])
        }
}

/// Copies `s` without its line feed characters.
pub fn strip_newlines(s: &str) -> (result: String)
    ensures
        result@ == without_newlines(s@),
{
    let mut result = String::new();
    let chars = s.chars();
    proof {
        reveal(Seq::filter);
    }
    for c in iter: chars
        invariant
            iter.seq() == s@,
            result@ == without_newlines(s@.take(iter.index())),
    {
        let ghost i = iter.index();
        proof {
            reveal(Seq::filter);
            assert(s@.take(i + 1).drop_last() == s@.take(i));
            assert(s@.take(i + 1).last() == c);
        }
        if c != '\n' {
            result.push(c);
        }
    }
    assert(s@.take(s@.len() as int) == s@);
    result
}

/// Brings the body of a query block into its one-line form.
pub fn normalize_query(body: &str) -> (result: String)
    ensures
        result@ == normalized(body@),
{
    let joined = strip_newlines(body);
    proof {
        lemma_collapsed_trimmed(joined@);
    }
    trim_whitespace(joined.as_str())
}

/// Whitespace at the start of a text adds nothing to its collapsed form.
pub proof fn lemma_collapsed_drop_first(s: Seq<char>)
    requires
        s.len() > 0,
        is_whitespace(s[0]),
    ensures
        collapsed(s) == collapsed(s.drop_first()),
    decreases s.len(),
{
    if s.len() == 1 {
        assert(collapsed(s.drop_last()) == Seq::<char>::empty());
        assert(s.drop_first() == Seq::<char>::empty());
    } else {
        let t = s.drop_first();
        assert(s.drop_last().drop_first() == t.drop_last());
        lemma_collapsed_drop_first(s.drop_last());
        assert(t.last() == s.last());
        if s.len() == 2 {
            assert(t.drop_last() == Seq::<char>::empty());
            assert(collapsed(t.drop_last()).len() == 0);
        } else {
            assert(t[t.len() - 2] == s[s.len() - 2]);
        }
    }
}

/// Trimming a text before collapsing it changes nothing: the collapsed form
/// already leaves out the whitespace at both ends.
pub proof fn lemma_collapsed_trimmed(s: Seq<char>)
    ensures
        collapsed(trimmed(s)) == collapsed(s),
{
    lemma_collapsed_trim_start(s);
    lemma_collapsed_trim_end(trim_start(s));
}

proof fn lemma_collapsed_trim_start(s: Seq<char>)
    ensures
        collapsed(trim_start(s)) == collapsed(s),
    decreases s.len(),
{
    if s.len() > 0 && is_whitespace(s[0]) {
        lemma_collapsed_drop_first(s);
        lemma_collapsed_trim_start(s.drop_first());
    }
}

proof fn lemma_collapsed_trim_end(s: Seq<char>)
    ensures
        collapsed(trim_end(s)) == collapsed(s),
    decreases s.len(),
{
    if s.len() > 0 && is_whitespace(s.last()) {
        lemma_collapsed_trim_end(s.drop_last());
    }
}

/// Every whitespace character of `t` is a space that follows a character
/// which is not whitespace. A text of this form may still end in one space.
spec fn spaced_after_words(t: Seq<char>) -> bool {
    forall|i: int|
        0 <= i < t.len() && is_whitespace(#[trigger] t[i]) ==> {
            &&& t[i] == ' '
            &&& 0 < i
            &&& !is_whitespace(t[i - 1])
        }
}

proof fn lemma_collapsed_form(s: Seq<char>)
    ensures
        spaced_after_words(collapsed(s)),
        collapsed(s).len() > 0 ==> !is_whitespace(collapsed(s).last()),
    decreases s.len(),
{
    if s.len() > 0 {
        lemma_collapsed_form(s.drop_last());
    }
}

/// The collapsed form of any text contains no whitespace but single spaces
/// between words: no line feed or tab, no space at either end, and no two
/// spaces in a row.
pub proof fn lemma_collapsed_single_spaced(s: Seq<char>)
    ensures
        single_spaced(collapsed(s)),
{
    lemma_collapsed_form(s);
    let t = collapsed(s);
    assert forall|i: int| 0 <= i < t.len() && is_whitespace(#[trigger] t[i]) implies {
        &&& t[i] == ' '
        &&& 0 < i < t.len() - 1
        &&& !is_whitespace(t[i - 1])
        &&& !is_whitespace(t[i + 1])
    } by {
        assert(i < t.len() - 1);
        if is_whitespace(t[i + 1]) {
            assert(!is_whitespace(t[i + 1 - 1]));
        }
    }
}

proof fn lemma_spaced_after_words_collapsed(t: Seq<char>)
    requires
        spaced_after_words(t),
    ensures
        collapsed(t) == if t.len() > 0 && is_whitespace(t.last()) {
            t.drop_last()
        } else {
            t
        },
    decreases t.len(),
{
    if t.len() > 0 {
        let u = t.drop_last();
        assert forall|i: int| 0 <= i < u.len() && is_whitespace(#[trigger] u[i]) implies {
            &&& u[i] == ' '
            &&& 0 < i
            &&& !is_whitespace(u[i - 1])
        } by {
            assert(u[i] == t[i]);
        }
        lemma_spaced_after_words_collapsed(u);
        let c = t.last();
        if is_whitespace(c) {
            assert(t[t.len() - 1] == c);
            assert(!is_whitespace(t[t.len() - 2]));
            assert(u.last() == t[t.len() - 2]);
        } else if u.len() == 0 {
            assert(t == Seq::<char>::empty().push(c));
        } else if is_whitespace(u.last()) {
            assert(u[u.len() - 1] == ' ');
            assert(u.len() >= 2);
            assert(u.drop_last().push(' ') == u);
            assert(t == u.push(c));
        } else {
            assert(t == u.push(c));
        }
    }
}

/// Collapsing changes nothing in a text that is already single-spaced.
pub proof fn lemma_single_spaced_fixed(t: Seq<char>)
    requires
        single_spaced(t),
    ensures
        collapsed(t) == t,
{
    if t.len() > 0 && is_whitespace(t.last()) {
        assert(is_whitespace(t[t.len() - 1]));
    }
    lemma_spaced_after_words_collapsed(t);
}

/// Collapsing twice gives what collapsing once gives.
pub proof fn lemma_collapsed_idempotent(s: Seq<char>)
    ensures
        collapsed(collapsed(s)) == collapsed(s),
{
    lemma_collapsed_single_spaced(s);
    lemma_single_spaced_fixed(collapsed(s));
}

/// A text made of whitespace alone, the empty text among them, collapses to
/// the empty text, and no other text does.
pub proof fn lemma_collapsed_blank(s: Seq<char>)
    ensures
        collapsed(s).len() == 0 <==> forall|i: int| 0 <= i < s.len() ==> is_whitespace(s[i]),
    decreases s.len(),
{
    if s.len() > 0 {
        let u = s.drop_last();
        lemma_collapsed_blank(u);
        if collapsed(s).len() == 0 {
            assert forall|i: int| 0 <= i < s.len() implies is_whitespace(s[i]) by {
                if i < u.len() {
                    assert(s[i] == u[i]);
                }
            }
        }
        if forall|i: int| 0 <= i < s.len() ==> is_whitespace(s[i]) {
            assert(is_whitespace(s[s.len() - 1]));
            assert forall|i: int| 0 <= i < u.len() implies is_whitespace(u[i]) by {
                assert(u[i] == s[i]);
            }
        }
    }
}

/// Collapsing keeps every character that is not whitespace, in its order.
pub proof fn lemma_collapsed_keeps_words(s: Seq<char>)
    ensures
        collapsed(s).filter(|c: char| !is_whitespace(c)) == s.filter(|c: char| !is_whitespace(c)),
    decreases s.len(),
{
    reveal(Seq::filter);
    let keep = |c: char| !is_whitespace(c);
    if s.len() > 0 {
        let u = s.drop_last();
        let head = collapsed(u);
        let c = s.last();
        lemma_collapsed_keeps_words(u);
        if is_whitespace(c) {
        } else if head.len() == 0 || !is_whitespace(s[s.len() - 2]) {
            assert(head.push(c).drop_last() == head);
        } else {
            let mid = head.push(' ');
            assert(mid.drop_last() == head);
            assert(mid.push(c).drop_last() == mid);
            assert(mid.filter(keep) == head.filter(keep));
        }
    }
}

/// The one-line form of any query body holds no line feed, begins and ends
/// with no space, and holds no two spaces in a row.
pub proof fn lemma_normalized_shape(body: Seq<char>)
    ensures
        single_spaced(normalized(body)),
        forall|i: int| 0 <= i < normalized(body).len() ==> normalized(body)[i] != '\n',
        normalized(body).len() > 0 ==> normalized(body).first() != ' ' && normalized(body).last()
            != ' ',
        forall|i: int|
            0 <= i < normalized(body).len() - 1 ==> !(#[trigger] normalized(body)[i] == ' '
                && normalized(body)[i + 1] == ' '),
{
    let t = normalized(body);
    lemma_collapsed_single_spaced(trimmed(without_newlines(body)));
    assert(is_whitespace('\n'));
    assert(is_whitespace(' '));
    assert forall|i: int| 0 <= i < t.len() implies t[i] != '\n' by {
        if t[i] == '\n' {
            assert(is_whitespace(t[i]));
        }
    }
    if t.len() > 0 {
        if t[0] == ' ' {
            assert(is_whitespace(t[0]));
        }
        if t[t.len() - 1] == ' ' {
            assert(is_whitespace(t[t.len() - 1]));
        }
    }
    assert forall|i: int| 0 <= i < t.len() - 1 implies !(#[trigger] t[i] == ' ' && t[i + 1] == ' ') by {
        if t[i] == ' ' && t[i + 1] == ' ' {
            assert(is_whitespace(t[i]));
        }
    }
}

/// Bringing a one-line form into one-line form again gives the same text.
pub proof fn lemma_normalized_idempotent(body: Seq<char>)
    ensures
        normalized(normalized(body)) == normalized(body),
{
    let t = normalized(body);
    lemma_normalized_shape(body);
    lemma_no_newline_kept(t);
    lemma_collapsed_trimmed(t);
    lemma_single_spaced_fixed(t);
}

proof fn lemma_no_newline_kept(t: Seq<char>)
    requires
        forall|i: int| 0 <= i < t.len() ==> t[i] != '\n',
    ensures
        without_newlines(t) == t,
    decreases t.len(),
{
    reveal(Seq::filter);
    if t.len() > 0 {
        let u = t.drop_last();
        assert forall|i: int| 0 <= i < u.len() implies u[i] != '\n' by {
            assert(u[i] == t[i]);
        }
        lemma_no_newline_kept(u);
        assert(t[t.len() - 1] != '\n');
        assert(u.push(t.last()) == t);
    }
}

} // verus!
