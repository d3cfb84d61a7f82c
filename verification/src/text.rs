//! Character sanitization and the newline-separated record format shared by
//! the catalog files and the per-item want-set records.

use vstd::prelude::*;

verus! {

/// Characters permitted in stored text: ASCII alphanumerics, space, the
/// newline record separator, single and double quotes, hyphen, hash and
/// parentheses. Everything else is stripped before storage or display.
pub open spec fn char_allowed(c: char) -> bool {
    let u = c as u32;
    ||| (97 <= u && u <= 122)
    ||| (65 <= u && u <= 90)
    ||| (48 <= u && u <= 57)
    ||| c == ' '
    ||| c == '\n'
    ||| c == '\''
    ||| c == '"'
    ||| c == '-'
    ||| c == '#'
    ||| c == '('
    ||| c == ')'
}

/// The sanitized form of a text: the subsequence of its allowed characters.
pub open spec fn clean(s: Seq<char>) -> Seq<char>
    decreases s.len(),
{
    if s.len() == 0 {
        Seq::empty()
    } else if char_allowed(s.last()) {
        clean(s.drop_last()).push(s.last())
    } else {
        clean(s.drop_last())
    }
}

pub fn is_char_allowed(c: char) -> (r: bool)
    ensures
        r == char_allowed(c),
{
    let u = c as u32;
    (97 <= u && u <= 122) || (65 <= u && u <= 90) || (48 <= u && u <= 57) || c == ' ' || c == '\n'
        || c == '\'' || c == '"' || c == '-' || c == '#' || c == '(' || c == ')'
}

/// Relies on String::push from std: appends exactly the given character.
#[verifier::external_body]
fn push_char(s: &mut String, c: char)
    ensures
        final(s)@ == old(s)@.push(c),
{
    s.push(c);
}

/// Strips every disallowed character, keeping the allowed ones in order.
pub fn filter_allowed_characters(string: String) -> (r: String)
    ensures
        r@ == clean(string@),
{
    let n = string.as_str().unicode_len();
    let mut out = String::new();
    let mut i: usize = 0;
    while i < n
        invariant
            n == string@.len(),
            i <= n,
            out@ == clean(string@.subrange(0, i as int)),
        decreases n - i,
    {
        let c = string.as_str().get_char(i);
        proof {
            assert(string@.subrange(0, i + 1).drop_last() =~= string@.subrange(0, i as int));
            assert(string@.subrange(0, i + 1).last() == c);
        }
        if is_char_allowed(c) {
            push_char(&mut out, c);
        }
        i += 1;
    }
    proof {
        assert(string@.subrange(0, n as int) =~= string@);
    }
    out
}

/// The segments of a text between newline separators, in order, blank ones
/// included; the last segment is whatever follows the final newline.
pub open spec fn segments(s: Seq<char>) -> Seq<Seq<char>>
    decreases s.len(),
{
    if s.len() == 0 {
        seq![Seq::empty()]
    } else if s.last() == '\n' {
        segments(s.drop_last()).push(Seq::empty())
    } else {
        let p = segments(s.drop_last());
        p.update(p.len() - 1, p.last().push(s.last()))
    }
}

pub proof fn lemma_segments_nonempty(s: Seq<char>)
    ensures
        segments(s).len() >= 1,
    decreases s.len(),
{
    if s.len() > 0 {
        lemma_segments_nonempty(s.drop_last());
    }
}

/// The non-blank segments of a list, in order.
pub open spec fn drop_blanks(segs: Seq<Seq<char>>) -> Seq<Seq<char>>
    decreases segs.len(),
{
    if segs.len() == 0 {
        Seq::empty()
    } else if segs.last().len() > 0 {
        drop_blanks(segs.drop_last()).push(segs.last())
    } else {
        drop_blanks(segs.drop_last())
    }
}

/// What a stored record denotes: its sanitized text, split at newlines, with
/// blank lines discarded. Every read of the backing store passes through this.
pub open spec fn record_entries(s: Seq<char>) -> Seq<Seq<char>> {
    drop_blanks(segments(clean(s)))
}

/// The texts of a list of strings.
pub open spec fn entry_views(v: Seq<String>) -> Seq<Seq<char>> {
    v.map_values(|e: String| e@)
}

/// No two strings of the list hold the same text.
pub open spec fn distinct_entries(es: Seq<Seq<char>>) -> bool {
    forall|i: int, j: int| 0 <= i < j < es.len() ==> es[i] != es[j]
}

/// Splits a text at newlines, dropping blank lines.
pub fn split_lines(s: &str) -> (r: Vec<String>)
    ensures
        entry_views(r@) == drop_blanks(segments(s@)),
{
    let n = s.unicode_len();
    let mut out: Vec<String> = Vec::new();
    let mut cur = String::new();
    let mut i: usize = 0;
    while i < n
        invariant
            n == s@.len(),
            i <= n,
            cur@ == segments(s@.subrange(0, i as int)).last(),
            entry_views(out@) == drop_blanks(segments(s@.subrange(0, i as int)).drop_last()),
        decreases n - i,
    {
        let c = s.get_char(i);
        proof {
            lemma_segments_nonempty(s@.subrange(0, i as int));
            assert(s@.subrange(0, i + 1).drop_last() =~= s@.subrange(0, i as int));
            assert(s@.subrange(0, i + 1).last() == c);
        }
        if c == '\n' {
            proof {
                let segs = segments(s@.subrange(0, i as int));
                assert(segments(s@.subrange(0, i + 1)) == segs.push(Seq::<char>::empty()));
                assert(segs.push(Seq::<char>::empty()).drop_last() =~= segs);
                assert(segs =~= segs.drop_last().push(segs.last()));
                if cur@.len() > 0 {
                    assert(entry_views(out@.push(cur)) =~= entry_views(out@).push(cur@));
                    assert(drop_blanks(segs) == drop_blanks(segs.drop_last()).push(segs.last()));
                } else {
                    assert(drop_blanks(segs) == drop_blanks(segs.drop_last()));
                }
            }
            if !cur.as_str().is_empty() {
                out.push(cur);
            }
            cur = String::new();
        } else {
            proof {
                let segs = segments(s@.subrange(0, i as int));
                let segs2 = segments(s@.subrange(0, i + 1));
                assert(segs2 == segs.update(segs.len() - 1, segs.last().push(c)));
                assert(segs2.drop_last() =~= segs.drop_last());
                assert(segs2.last() == cur@.push(c));
            }
            push_char(&mut cur, c);
        }
        i += 1;
    }
    proof {
        let segs = segments(s@);
        lemma_segments_nonempty(s@);
        assert(s@.subrange(0, n as int) =~= s@);
        assert(segs =~= segs.drop_last().push(segs.last()));
        if cur@.len() > 0 {
            assert(entry_views(out@.push(cur)) =~= entry_views(out@).push(cur@));
            assert(drop_blanks(segs) == drop_blanks(segs.drop_last()).push(segs.last()));
        } else {
            assert(drop_blanks(segs) == drop_blanks(segs.drop_last()));
        }
    }
    if !cur.as_str().is_empty() {
        out.push(cur);
    }
    out
}

/// Sanitizes a stored record and lists its non-blank lines: how every record
/// read from the backing store is interpreted.
pub fn load_entries(content: String) -> (r: Vec<String>)
    ensures
        entry_views(r@) == record_entries(content@),
{
    let cleaned = filter_allowed_characters(content);
    split_lines(cleaned.as_str())
}

/// The stored form of a list of entries: each entry followed by a newline.
pub open spec fn joined(entries: Seq<Seq<char>>) -> Seq<char>
    decreases entries.len(),
{
    if entries.len() == 0 {
        Seq::empty()
    } else {
        joined(entries.drop_last()) + entries.last() + seq!['\n']
    }
}

/// Serializes entries into the newline-separated record format.
pub fn join_lines(entries: &Vec<String>) -> (r: String)
    ensures
        r@ == joined(entry_views(entries@)),
{
    let mut out = String::new();
    let mut i: usize = 0;
    while i < entries.len()
        invariant
            i <= entries@.len(),
            out@ == joined(entry_views(entries@.subrange(0, i as int))),
        decreases entries@.len() - i,
    {
        proof {
            let pre = entry_views(entries@.subrange(0, i as int));
            let pre2 = entry_views(entries@.subrange(0, i + 1));
            assert(pre2.drop_last() =~= pre);
            assert(pre2.last() == entries@[i as int]@);
            assert(pre2 =~= pre.push(entries@[i as int]@));
        }
        out.append(&entries[i].as_str());
        push_char(&mut out, '\n');
        i += 1;
    }
    proof {
        assert(entries@.subrange(0, entries@.len() as int) =~= entries@);
    }
    out
}

/// A storable entry: non-blank, every character allowed, and free of the
/// newline separator.
pub open spec fn entry_ok(e: Seq<char>) -> bool {
    &&& e.len() > 0
    &&& forall|j: int| 0 <= j < e.len() ==> char_allowed(#[trigger] e[j]) && e[j] != '\n'
}

proof fn lemma_clean_identity(s: Seq<char>)
    requires
        forall|i: int| 0 <= i < s.len() ==> char_allowed(#[trigger] s[i]),
    ensures
        clean(s) == s,
    decreases s.len(),
{
    if s.len() > 0 {
        lemma_clean_identity(s.drop_last());
        assert(s.drop_last().push(s.last()) =~= s);
    }
}

proof fn lemma_segments_append(s: Seq<char>, x: Seq<char>)
    requires
        forall|j: int| 0 <= j < x.len() ==> #[trigger] x[j] != '\n',
    ensures
        segments(s + x) == segments(s).update(
            segments(s).len() - 1,
            segments(s).last() + x,
        ),
    decreases x.len(),
{
    lemma_segments_nonempty(s);
    let segs = segments(s);
    if x.len() == 0 {
        assert(s + x =~= s);
        assert(segs.last() + x =~= segs.last());
        assert(segs.update(segs.len() - 1, segs.last()) =~= segs);
    } else {
        lemma_segments_append(s, x.drop_last());
        let mid = segments(s + x.drop_last());
        assert((s + x).drop_last() =~= s + x.drop_last());
        assert((s + x).last() == x.last());
        assert(x.last() != '\n');
        assert(segments(s + x) == mid.update(mid.len() - 1, mid.last().push(x.last())));
        assert(mid.last() == segs.last() + x.drop_last());
        assert((segs.last() + x.drop_last()).push(x.last()) =~= segs.last() + x);
        assert(mid.update(mid.len() - 1, segs.last() + x) =~= segs.update(
            segs.len() - 1,
            segs.last() + x,
        ));
    }
}

proof fn lemma_segments_joined(es: Seq<Seq<char>>)
    requires
        forall|i: int| 0 <= i < es.len() ==> entry_ok(#[trigger] es[i]),
    ensures
        segments(joined(es)) == es.push(Seq::empty()),
    decreases es.len(),
{
    if es.len() == 0 {
        assert(joined(es) =~= Seq::<char>::empty());
        assert(segments(joined(es)) =~= es.push(Seq::empty()));
    } else {
        let pre = es.drop_last();
        lemma_segments_joined(pre);
        let a = joined(pre);
        lemma_segments_append(a, es.last());
        let segs = segments(a);
        assert(segs == pre.push(Seq::<char>::empty()));
        assert(segs.last() =~= Seq::<char>::empty());
        assert(segs.last() + es.last() =~= es.last());
        assert(segments(a + es.last()) == segs.update(segs.len() - 1, es.last()));
        assert(segs.update(segs.len() - 1, es.last()) =~= pre.push(es.last()));
        assert(a + es.last() + seq!['\n'] =~= (a + es.last()).push('\n'));
        assert((a + es.last()).push('\n').drop_last() =~= a + es.last());
        assert((a + es.last()).push('\n').last() == '\n');
        assert(segments((a + es.last()).push('\n')) == segments(a + es.last()).push(
            Seq::empty()));
        assert(pre.push(es.last()) =~= es);
        assert(joined(es) == a + es.last() + seq!['\n']);
    }
}

proof fn lemma_joined_chars(es: Seq<Seq<char>>)
    requires
        forall|i: int| 0 <= i < es.len() ==> entry_ok(#[trigger] es[i]),
    ensures
        forall|k: int| 0 <= k < joined(es).len() ==> char_allowed(#[trigger] joined(es)[k]),
    decreases es.len(),
{
    if es.len() > 0 {
        lemma_joined_chars(es.drop_last());
        let a = joined(es.drop_last());
        assert forall|k: int| 0 <= k < joined(es).len() implies char_allowed(
            #[trigger] joined(es)[k]) by {
            if k < a.len() {
                assert(joined(es)[k] == a[k]);
            } else if k < a.len() + es.last().len() {
                assert(joined(es)[k] == es.last()[k - a.len()]);
            } else {
                assert(joined(es)[k] == '\n');
            }
        }
    }
}

proof fn lemma_drop_blanks_identity(es: Seq<Seq<char>>)
    requires
        forall|i: int| 0 <= i < es.len() ==> (#[trigger] es[i]).len() > 0,
    ensures
        drop_blanks(es) == es,
    decreases es.len(),
{
    if es.len() > 0 {
        lemma_drop_blanks_identity(es.drop_last());
        assert(es.drop_last().push(es.last()) =~= es);
    }
}

/// Storing well-formed entries and reading the record back yields exactly
/// those entries: serialization round-trips through sanitization and line
/// splitting.
pub proof fn lemma_store_round_trip(es: Seq<Seq<char>>)
    requires
        forall|i: int| 0 <= i < es.len() ==> entry_ok(#[trigger] es[i]),
    ensures
        record_entries(joined(es)) == es,
{
    lemma_joined_chars(es);
    lemma_clean_identity(joined(es));
    lemma_segments_joined(es);
    assert(record_entries(joined(es)) == drop_blanks(es.push(Seq::empty())));
    assert(es.push(Seq::<char>::empty()).drop_last() =~= es);
    assert(drop_blanks(es.push(Seq::empty())) == drop_blanks(es));
    lemma_drop_blanks_identity(es);
}

} // verus!

