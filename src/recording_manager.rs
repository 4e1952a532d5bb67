//! Archival of utterances for debugging, bounded by a retention count.

use vstd::prelude::*;
use crate::text::{decimal, push_char, push_decimal};

verus! {

/// Most UTF-8 bytes of a transcript that name its recording.
pub const NAME_PREFIX_BYTES: usize = 50;

/// Whether `char::is_alphanumeric` holds of a character.
pub uninterp spec fn alphanumeric(c: char) -> bool;

/// Whether `char::is_whitespace` holds of a character.
pub uninterp spec fn whitespace(c: char) -> bool;

/// Relies on `char::is_alphanumeric`: the Unicode Alphabetic or Numeric property.
#[verifier::external_body]
fn is_alphanumeric(c: char) -> (r: bool)
    ensures
        r == alphanumeric(c),
{
    c.is_alphanumeric()
}

/// Relies on `char::is_whitespace`: the Unicode White_Space property.
#[verifier::external_body]
fn is_whitespace(c: char) -> (r: bool)
    ensures
        r == whitespace(c),
{
    c.is_whitespace()
}

/// ASCII lower case: `A`..`Z` become `a`..`z`, other characters stay.
pub open spec fn ascii_lower(c: char) -> char {
    if 'A' <= c && c <= 'Z' {
        ((c as u32) + 32) as char
    } else {
        c
    }
}

fn to_ascii_lower(c: char) -> (r: char)
    ensures
        r == ascii_lower(c),
{
    if 'A' <= c && c <= 'Z' {
        ((c as u8) + 32) as char
    } else {
        c
    }
}

/// What a character contributes to a slug: letters and digits in ASCII lower
/// case, whitespace as a word separator `-`, anything else nothing.
pub open spec fn slug_char(c: char) -> Option<char> {
    if alphanumeric(c) {
        Some(ascii_lower(c))
    } else if whitespace(c) {
        Some('-')
    } else {
        None
    }
}

/// Slug of a text read left to right: the slug so far, and whether a
/// separator came after its last word.
pub open spec fn slug_scan(s: Seq<char>) -> (Seq<char>, bool)
    decreases s.len(),
{
    if s.len() == 0 {
        (Seq::empty(), false)
    } else {
        let (out, gap) = slug_scan(s.drop_last());
        match slug_char(s.last()) {
            Some(m) => if m == '-' {
                (out, true)
            } else if gap && out.len() > 0 {
                (out.push('-').push(m), false)
            } else {
                (out.push(m), false)
            },
            None => (out, gap),
        }
    }
}

/// The slug of a text: its words, joined by single `-`, with no `-` at either end.
pub open spec fn slug(s: Seq<char>) -> Seq<char> {
    slug_scan(s).0
}

/// Number of bytes that UTF-8 takes for a character.
pub open spec fn utf8_len(c: char) -> nat {
    if (c as u32) < 0x80 {
        1
    } else if (c as u32) < 0x800 {
        2
    } else if (c as u32) < 0x10000 {
        3
    } else {
        4
    }
}

/// How many leading characters of `s` fit in `limit` UTF-8 bytes.
pub open spec fn fitting_chars(s: Seq<char>, limit: nat) -> nat
    decreases s.len(),
{
    if s.len() == 0 || utf8_len(s[0]) > limit {
        0
    } else {
        1 + fitting_chars(s.drop_first(), (limit - utf8_len(s[0])) as nat)
    }
}

proof fn lemma_fitting_chars_bounded(s: Seq<char>, limit: nat)
    ensures
        fitting_chars(s, limit) <= s.len(),
    decreases s.len(),
{
    if s.len() > 0 && utf8_len(s[0]) <= limit {
        lemma_fitting_chars_bounded(s.drop_first(), (limit - utf8_len(s[0])) as nat);
    }
}

fn utf8_width(c: char) -> (r: usize)
    ensures
        r == utf8_len(c),
{
    if (c as u32) < 0x80 {
        1
    } else if (c as u32) < 0x800 {
        2
    } else if (c as u32) < 0x10000 {
        3
    } else {
        4
    }
}

/// Name of the file for a recording made at `timestamp` seconds whose
/// transcript is `transcript`: it names the longest prefix of at most 50
/// UTF-8 bytes that ends between characters.
pub open spec fn recording_name(timestamp: u64, transcript: Seq<char>) -> Seq<char> {
    let prefix = transcript.take(fitting_chars(transcript, NAME_PREFIX_BYTES as nat) as int);
    decimal(timestamp as nat) + seq!['_'] + slug(prefix) + seq!['.', 'w', 'a', 'v']
}

/// Whether recording `a` is older than recording `b`: modified earlier, or at
/// the same time and listed first.
pub open spec fn older(modified: Seq<u64>, a: int, b: int) -> bool {
    modified[a] < modified[b] || (modified[a] == modified[b] && a < b)
}

/// Recordings beyond the retention count.
pub open spec fn excess(count: nat, max: nat) -> nat {
    if count > max {
        (count - max) as nat
    } else {
        0
    }
}

/// `doomed` lists, once each, the oldest recordings beyond the retention count.
pub open spec fn retention_selection(modified: Seq<u64>, max: nat, doomed: Seq<usize>) -> bool {
    &&& doomed.len() == excess(modified.len(), max)
    &&& doomed.no_duplicates()
    &&& forall|i: int| 0 <= i < doomed.len() ==> #[trigger] doomed[i] < modified.len()
    &&& forall|i: int, k: int|
        0 <= i < doomed.len() && 0 <= k < modified.len() && !doomed.contains(k as usize)
            ==> #[trigger] older(modified, doomed[i] as int, k)
}

/// Number of `false` entries.
pub open spec fn count_unmarked(marks: Seq<bool>) -> nat
    decreases marks.len(),
{
    if marks.len() == 0 {
        0
    } else {
        count_unmarked(marks.drop_last()) + if marks.last() {
            0nat
        } else {
            1nat
        }
    }
}

proof fn lemma_count_mark(marks: Seq<bool>, j: int)
    requires
        0 <= j < marks.len(),
        !marks[j],
    ensures
        count_unmarked(marks.update(j, true)) + 1 == count_unmarked(marks),
    decreases marks.len(),
{
    if j < marks.len() - 1 {
        assert(marks.update(j, true).drop_last() =~= marks.drop_last().update(j, true));
        lemma_count_mark(marks.drop_last(), j);
    } else {
        assert(marks.update(j, true).drop_last() =~= marks.drop_last());
    }
}

proof fn lemma_unmarked_exists(marks: Seq<bool>)
    requires
        count_unmarked(marks) > 0,
    ensures
        exists|j: int| 0 <= j < marks.len() && !marks[j],
    decreases marks.len(),
{
    if !marks.last() {
        assert(!marks[marks.len() - 1]);
    } else {
        lemma_unmarked_exists(marks.drop_last());
        let j = choose|j: int| 0 <= j < marks.drop_last().len() && !marks.drop_last()[j];
        assert(!marks[j]);
    }
}

proof fn lemma_all_unmarked(n: nat)
    ensures
        count_unmarked(Seq::new(n, |i: int| false)) == n,
    decreases n,
{
    if n > 0 {
        assert(Seq::new(n, |i: int| false).drop_last() =~= Seq::new((n - 1) as nat, |i: int| false));
        lemma_all_unmarked((n - 1) as nat);
    }
}

/// Where debug recordings go and how many are kept.
pub struct RecordingManager {
    recordings_dir: String,
    max_recordings: usize,
}

impl RecordingManager {
    pub closed spec fn spec_dir(&self) -> Seq<char> {
        self.recordings_dir@
    }

    pub closed spec fn spec_max(&self) -> usize {
        self.max_recordings
    }

    /// A manager that keeps the newest `max_recordings` recordings in `recordings_dir`.
    pub fn new(recordings_dir: String, max_recordings: usize) -> (r: RecordingManager)
        ensures
            r.spec_dir() == recordings_dir@,
            r.spec_max() == max_recordings,
    {
        RecordingManager { recordings_dir, max_recordings }
    }

    pub fn recordings_dir(&self) -> (r: &str)
        ensures
            r@ == self.spec_dir(),
    {
        self.recordings_dir.as_str()
    }

    pub fn max_recordings(&self) -> (r: usize)
        ensures
            r == self.spec_max(),
    {
        self.max_recordings
    }

    /// A file-name-safe form of a text: letters and digits in ASCII lower
    /// case, words separated by single `-`, everything else dropped.
    pub fn slugify(&self, text: &str) -> (r: String)
        ensures
            r@ == slug(text@),
    {
        let n = text.unicode_len();
        let mut out = String::new();
        let mut gap = false;
        let mut i: usize = 0;
        while i < n
            invariant
                n == text@.len(),
                i <= n,
                (out@, gap) == slug_scan(text@.take(i as int)),
            decreases n - i,
        {
            let c = text.get_char(i);
            proof {
                assert(text@.take(i + 1).drop_last() =~= text@.take(i as int));
                assert(text@.take(i + 1).last() == c);
            }
            if is_alphanumeric(c) || is_whitespace(c) {
                let m = if is_alphanumeric(c) {
                    to_ascii_lower(c)
                } else {
                    '-'
                };
                if m == '-' {
                    gap = true;
                } else {
                    if gap && out.unicode_len() > 0 {
                        push_char(&mut out, '-');
                    }
                    push_char(&mut out, m);
                    gap = false;
                }
            }
            i = i + 1;
        }
        assert(text@.take(n as int) =~= text@);
        out
    }

    /// File name for a recording made at `timestamp` seconds: the timestamp,
    /// `_`, the slug of the transcript's longest prefix of at most 50 UTF-8
    /// bytes, and `.wav`.
    pub fn recording_file_name(&self, timestamp: u64, transcription: &str) -> (r: String)
        ensures
            r@ == recording_name(timestamp, transcription@),
    {
        let ghost s = transcription@;
        let n = transcription.unicode_len();
        let mut end: usize = 0;
        let mut used: usize = 0;
        proof {
            lemma_fitting_chars_bounded(s, NAME_PREFIX_BYTES as nat);
            assert(s.skip(0) =~= s);
        }
        while end < n && used + utf8_width(transcription.get_char(end)) <= NAME_PREFIX_BYTES
            invariant
                s == transcription@,
                n == s.len(),
                end <= n,
                used <= NAME_PREFIX_BYTES,
                fitting_chars(s, NAME_PREFIX_BYTES as nat) == end + fitting_chars(
                    s.skip(end as int),
                    (NAME_PREFIX_BYTES - used) as nat,
                ),
            decreases n - end,
        {
            let w = utf8_width(transcription.get_char(end));
            proof {
                assert(s.skip(end as int).drop_first() =~= s.skip(end + 1));
                assert(s.skip(end as int)[0] == s[end as int]);
            }
            used = used + w;
            end = end + 1;
        }
        proof {
            if end < n {
                assert(s.skip(end as int)[0] == s[end as int]);
            }
        }
        let prefix = transcription.substring_char(0, end);
        assert(prefix@ =~= s.take(fitting_chars(s, NAME_PREFIX_BYTES as nat) as int));
        let slug_text = self.slugify(prefix);
        let mut r = String::new();
        push_decimal(&mut r, timestamp as u128);
        push_char(&mut r, '_');
        r.append(slug_text.as_str());
        push_char(&mut r, '.');
        push_char(&mut r, 'w');
        push_char(&mut r, 'a');
        push_char(&mut r, 'v');
        assert(r@ =~= recording_name(timestamp, transcription@));
        r
    }

    /// Chooses the recordings to delete so that the newest `max_recordings`
    /// remain, given each recording's modification time in listing order.
    /// Returns their positions, oldest first.
    pub fn recordings_to_delete(&self, modified: &Vec<u64>) -> (doomed: Vec<usize>)
        ensures
            retention_selection(modified@, self.spec_max() as nat, doomed@),
    {
        let n = modified.len();
        let goal: usize = if n > self.max_recordings {
            n - self.max_recordings
        } else {
            0
        };
        let mut marks: Vec<bool> = Vec::new();
        let mut j: usize = 0;
        while j < n
            invariant
                j <= n,
                marks@ == Seq::new(j as nat, |i: int| false),
            decreases n - j,
        {
            marks.push(false);
            assert(marks@ =~= Seq::new((j + 1) as nat, |i: int| false));
            j = j + 1;
        }
        proof {
            lemma_all_unmarked(n as nat);
        }
        let mut doomed: Vec<usize> = Vec::new();
        while doomed.len() < goal
            invariant
                n == modified@.len(),
                goal == excess(n as nat, self.spec_max() as nat),
                goal <= n,
                marks@.len() == n,
                doomed@.len() <= goal,
                count_unmarked(marks@) == n - doomed@.len(),
                doomed@.no_duplicates(),
                forall|i: int| 0 <= i < doomed@.len() ==> #[trigger] doomed@[i] < n,
                forall|k: int| 0 <= k < n ==> (marks@[k] <==> doomed@.contains(k as usize)),
                forall|i: int, k: int|
                    0 <= i < doomed@.len() && 0 <= k < n && !marks@[k] ==> #[trigger] older(modified@, doomed@[i] as int, k),
            decreases goal - doomed@.len(),
        {
            proof {
                lemma_unmarked_exists(marks@);
            }
            let mut best: usize = n;
            let mut k: usize = 0;
            while k < n
                invariant
                    n == modified@.len(),
                    marks@.len() == n,
                    k <= n,
                    best == n || (best < k && !marks@[best as int]),
                    best == n ==> forall|q: int| 0 <= q < k ==> marks@[q],
                    best < n ==> forall|q: int|
                        0 <= q < k && !marks@[q] && q != best ==> older(modified@, best as int, q),
                decreases n - k,
            {
                if !marks[k] {
                    if best == n || modified[k] < modified[best] {
                        best = k;
                    }
                }
                k = k + 1;
            }
            let ghost before = doomed@;
            proof {
                lemma_count_mark(marks@, best as int);
            }
            marks.set(best, true);
            doomed.push(best);
            proof {
                assert(forall|i: int| 0 <= i < before.len() ==> doomed@[i] == before[i]);
                assert(forall|k: int| 0 <= k < n ==> (marks@[k] <==> doomed@.contains(k as usize)))
                    by {
                    assert forall|k: int| 0 <= k < n implies (marks@[k] <==> doomed@.contains(
                        k as usize,
                    )) by {
                        if k == best {
                            assert(doomed@[before.len() as int] == best);
                        } else if before.contains(k as usize) {
                            let i = choose|i: int| 0 <= i < before.len() && before[i] == k as usize;
                            assert(doomed@[i] == k as usize);
                        } else if doomed@.contains(k as usize) {
                            let i = choose|i: int| 0 <= i < doomed@.len() && doomed@[i] == k as usize;
                            assert(i < before.len());
                        }
                    }
                }
            }
        }
        proof {
            assert forall|i: int, k: int|
                0 <= i < doomed@.len() && 0 <= k < n && !doomed@.contains(k as usize) implies #[trigger] older(modified@, doomed@[i] as int, k) by {
                assert(!marks@[k]);
            }
        }
        doomed
    }
}

/// With a retention count of `max`, once more than `max` recordings exist,
/// exactly `max` remain after pruning, and when modification times differ,
/// each one kept is strictly newer than each one deleted.
pub proof fn lemma_retention_keeps_newest(modified: Seq<u64>, max: nat, doomed: Seq<usize>)
    requires
        retention_selection(modified, max, doomed),
        modified.len() > max,
        modified.len() <= usize::MAX,
    ensures
        modified.len() - doomed.len() == max,
        (forall|a: int, b: int| 0 <= a < b < modified.len() ==> modified[a] != modified[b])
            ==> forall|i: int, k: int|
            #![trigger doomed[i], modified[k]]
            0 <= i < doomed.len() && 0 <= k < modified.len() && !doomed.contains(k as usize)
                ==> modified[doomed[i] as int] < modified[k],
{
    if forall|a: int, b: int| 0 <= a < b < modified.len() ==> modified[a] != modified[b] {
        assert forall|i: int, k: int|
            #![trigger doomed[i], modified[k]]
            0 <= i < doomed.len() && 0 <= k < modified.len() && !doomed.contains(k as usize)
                implies modified[doomed[i] as int] < modified[k] by {
            let d = doomed[i] as int;
            assert(older(modified, d, k));
            assert(doomed.contains(doomed[i]));
            assert(d != k);
            if d < k {
                assert(modified[d] != modified[k]);
            } else {
                assert(modified[k] != modified[d]);
            }
        }
    }
}

} // verus!
