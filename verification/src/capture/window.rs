//! Exact title lookup and the checks made before a window is captured.

use super::{CaptureError, Result};
use std::time::Duration;
use vstd::prelude::*;
use vstd::utf8::{char_is_scalar, char_u32_cast};

verus! {

/// The UTF-16 code units of one character: one unit below U+10000, otherwise a
/// surrogate pair.
pub open spec fn utf16_units(c: char) -> Seq<u16> {
    let v = c as u32;
    if v < 0x10000 {
        seq![v as u16]
    } else {
        seq![(0xD800 + (v - 0x10000) / 0x400) as u16, (0xDC00 + (v - 0x10000) % 0x400) as u16]
    }
}

/// The UTF-16 encoding of a character sequence.
pub open spec fn utf16_encode(s: Seq<char>) -> Seq<u16>
    decreases s.len(),
{
    if s.len() == 0 {
        Seq::empty()
    } else {
        utf16_encode(s.drop_last()) + utf16_units(s.last())
    }
}

/// Every character takes one or two UTF-16 units.
proof fn lemma_utf16_len(s: Seq<char>)
    ensures
        s.len() <= utf16_encode(s).len() <= 2 * s.len(),
    decreases s.len(),
{
    if s.len() > 0 {
        lemma_utf16_len(s.drop_last());
    }
}

/// A title of characters below U+10000 is encoded one unit per character,
/// each unit the character's code point.
pub proof fn lemma_utf16_single_units(s: Seq<char>)
    ensures
        (forall|i: int| 0 <= i < s.len() ==> (s[i] as u32) < 0x10000) ==> utf16_encode(s).len()
            == s.len() && forall|i: int| 0 <= i < s.len() ==> utf16_encode(s)[i] == s[i] as u32,
    decreases s.len(),
{
    if s.len() > 0 && forall|i: int| 0 <= i < s.len() ==> (s[i] as u32) < 0x10000 {
        let prefix = s.drop_last();
        assert forall|i: int| 0 <= i < prefix.len() implies (prefix[i] as u32) < 0x10000 by {
            assert(prefix[i] == s[i]);
        }
        lemma_utf16_single_units(prefix);
        assert((s.last() as u32) < 0x10000);
        assert forall|i: int| 0 <= i < s.len() implies utf16_encode(s)[i] == s[i] as u32 by {
            if i < prefix.len() {
                assert(prefix[i] == s[i]);
            }
        }
    }
}

/// A character below U+10000 is one unit that is no low surrogate; any other
/// character is a high surrogate followed by a low one, from which it can be
/// read back.
proof fn lemma_utf16_units_shape(c: char)
    ensures
        (c as u32) < 0x10000 ==> utf16_units(c).len() == 1 && utf16_units(c)[0] == c as u32 && !(
        0xDC00 <= utf16_units(c)[0] <= 0xDFFF),
        (c as u32) >= 0x10000 ==> utf16_units(c).len() == 2 && 0xD800 <= utf16_units(c)[0] <= 0xDBFF
            && 0xDC00 <= utf16_units(c)[1] <= 0xDFFF && c as u32 == 0x10000 + (utf16_units(c)[0]
            - 0xD800) * 0x400 + (utf16_units(c)[1] - 0xDC00),
{
    char_is_scalar(c);
    let v = c as u32;
    if v >= 0x10000 {
        let u = v - 0x10000;
        assert(u == (u / 0x400) * 0x400 + u % 0x400) by {
            vstd::arithmetic::div_mod::lemma_fundamental_div_mod(u as int, 0x400);
        }
    }
}

/// Two characters with the same code point are the same character.
proof fn lemma_char_from_code(a: char, b: char)
    requires
        a as u32 == b as u32,
    ensures
        a == b,
{
    char_u32_cast(a, a as u32);
    char_u32_cast(b, b as u32);
}

/// Title matching is exact: two titles have the same UTF-16 units only when
/// they are the same characters, so comparing units compares the titles,
/// whitespace and all.
pub proof fn lemma_utf16_encode_injective(a: Seq<char>, b: Seq<char>)
    ensures
        utf16_encode(a) == utf16_encode(b) ==> a == b,
    decreases a.len() + b.len(),
{
    lemma_utf16_len(a);
    lemma_utf16_len(b);
    if a.len() == 0 || b.len() == 0 {
        if utf16_encode(a) == utf16_encode(b) {
            assert(a.len() == 0 && b.len() == 0);
            assert(a =~= b);
        }
        return;
    }
    let ea = utf16_encode(a);
    let eb = utf16_encode(b);
    if ea != eb {
        return;
    }
    let ca = a.last();
    let cb = b.last();
    let pa = utf16_encode(a.drop_last());
    let pb = utf16_encode(b.drop_last());
    let ua = utf16_units(ca);
    let ub = utf16_units(cb);
    assert(ea == pa + ua);
    assert(eb == pb + ub);
    lemma_utf16_units_shape(ca);
    lemma_utf16_units_shape(cb);
    let n = ea.len() as int;
    assert(ea[n - 1] == ua[ua.len() - 1]);
    assert(eb[n - 1] == ub[ub.len() - 1]);
    assert(ua.len() == ub.len());
    if ua.len() == 2 {
        assert(ea[n - 2] == ua[0]);
        assert(eb[n - 2] == ub[0]);
    }
    assert(ua =~= ub);
    lemma_char_from_code(ca, cb);
    assert(pa =~= ea.subrange(0, n - ua.len()));
    assert(pb =~= eb.subrange(0, n - ub.len()));
    lemma_utf16_encode_injective(a.drop_last(), b.drop_last());
    assert(a =~= a.drop_last().push(ca));
    assert(b =~= b.drop_last().push(cb));
}

/// The longest title, in UTF-16 code units, that a window can have.
pub const MAX_TITLE_UNITS: usize = 32767;

/// What `title_units` returns: the title's UTF-16 units, unless it is empty,
/// holds a NUL or is longer than a window title can be.
pub open spec fn spec_title_units(title: Seq<char>) -> std::result::Result<Seq<u16>, CaptureError> {
    if title.len() == 0 || title.contains('\0') {
        Err(CaptureError::InvalidInput("title must be nonempty and contain no NUL"))
    } else if utf16_encode(title).len() > MAX_TITLE_UNITS {
        Err(CaptureError::InvalidInput("window title is too long"))
    } else {
        Ok(utf16_encode(title))
    }
}

/// Checks a requested window title and encodes it as UTF-16 for an exact
/// comparison with window titles.
pub fn title_units(title: &str) -> (res: Result<Vec<u16>>)
    ensures
        match spec_title_units(title@) {
            Ok(units) => res matches Ok(v) && v@ == units,
            Err(e) => res == Err::<Vec<u16>, CaptureError>(e),
        },
        res is Ok ==> title@.len() > 0 && !title@.contains('\0'),
        res matches Ok(v) ==> v@.len() <= MAX_TITLE_UNITS,
        res matches Ok(v) ==> title@.len() <= v@.len() <= 2 * title@.len(),
        res matches Ok(v) ==> ((forall|i: int| 0 <= i < title@.len() ==> (title@[i] as u32) < 0x10000)
            ==> v@.len() == title@.len() && forall|i: int|
            0 <= i < title@.len() ==> v@[i] == title@[i] as u32),
{
    proof {
        lemma_utf16_len(title@);
        lemma_utf16_single_units(title@);
    }
    let mut units: Vec<u16> = Vec::new();
    let mut has_nul = false;
    for c in it: title.chars()
        invariant
            it.seq() == title@,
            units@ == utf16_encode(title@.take(it.index() as int)),
            has_nul == title@.take(it.index() as int).contains('\0'),
    {
        let ghost before = title@.take(it.index() as int);
        proof {
            assert(title@.take(it.index() + 1).drop_last() =~= before);
            assert(title@.take(it.index() + 1) =~= before.push(c));
        }
        let v = c as u32;
        proof {
            char_is_scalar(c);
        }
        if v < 0x10000 {
            units.push(v as u16);
        } else {
            let u = v - 0x10000;
            assert(u / 0x400 < 0x400 && u % 0x400 < 0x400);
            units.push((0xD800 + u / 0x400) as u16);
            units.push((0xDC00 + u % 0x400) as u16);
        }
        if c == '\0' {
            has_nul = true;
        }
        proof {
            assert(units@ =~= utf16_encode(before) + utf16_units(c));
            if c == '\0' {
                assert(before.push(c)[before.len() as int] == c);
            } else if before.push(c).contains('\0') {
                let k = choose|k: int| 0 <= k < before.len() + 1 && before.push(c)[k] == '\0';
                assert(before[k] == '\0');
            }
        }
    }
    proof {
        assert(title@.take(title@.len() as int) =~= title@);
        lemma_utf16_len(title@);
    }
    if units.len() == 0 || has_nul {
        return Err(CaptureError::InvalidInput("title must be nonempty and contain no NUL"));
    }
    if units.len() > MAX_TITLE_UNITS {
        return Err(CaptureError::InvalidInput("window title is too long"));
    }
    Ok(units)
}

/// The Win32 code that a successful call leaves as the last error.
pub const ERROR_SUCCESS_CODE: u32 = 0;

/// The Win32 code for a window handle that is no longer valid; a window that
/// closes during the search is skipped.
pub const ERROR_INVALID_WINDOW_HANDLE_CODE: u32 = 1400;

/// The state of a search over top-level windows for one exact title.
pub struct TitleSearch {
    /// The requested title in UTF-16 units.
    pub title: Vec<u16>,
    /// Where each window's title is read to; two units longer than `title`,
    /// so that a longer title is never cut to a prefix that matches.
    pub buffer: Vec<u16>,
    /// The first window whose title matched.
    pub first: Option<usize>,
    /// How many windows matched.
    pub count: usize,
    /// The Win32 error code that stopped the search, if one did.
    pub failure: Option<u32>,
}

/// The window's title was read into the first `copied` units of `buffer` and
/// is exactly `title`.
pub open spec fn title_read_matches(title: Seq<u16>, buffer: Seq<u16>, copied: i32) -> bool {
    &&& copied as int == title.len()
    &&& title.len() <= buffer.len()
    &&& buffer.subrange(0, copied as int) == title
}

/// A failed title read that ends the search: no units copied and an error
/// other than success or a vanished window.
pub open spec fn read_failed(copied: i32, last_error: u32) -> bool {
    copied == 0 && last_error != ERROR_SUCCESS_CODE && last_error != ERROR_INVALID_WINDOW_HANDLE_CODE
}

/// The matches found so far, the first matching window and how many matched,
/// after one more window's title was read: `read` holds the window, the buffer
/// and the number of units copied into it.
pub open spec fn spec_observe(
    found: (Option<usize>, nat),
    title: Seq<u16>,
    read: (usize, Seq<u16>, i32),
) -> (Option<usize>, nat) {
    if read.2 != 0 && title_read_matches(title, read.1, read.2) {
        (
            match found.0 {
                Some(w) => Some(w),
                None => Some(read.0),
            },
            found.1 + 1,
        )
    } else {
        found
    }
}

/// The matches found after reading the titles of `reads` in order, from none.
pub open spec fn spec_search(title: Seq<u16>, reads: Seq<(usize, Seq<u16>, i32)>) -> (
    Option<usize>,
    nat,
)
    decreases reads.len(),
{
    if reads.len() == 0 {
        (None, 0)
    } else {
        spec_observe(spec_search(title, reads.drop_last()), title, reads.last())
    }
}

/// The windows among `reads` whose title is exactly `title`, in order.
pub open spec fn matching_windows(title: Seq<u16>, reads: Seq<(usize, Seq<u16>, i32)>) -> Seq<usize>
    decreases reads.len(),
{
    if reads.len() == 0 {
        Seq::empty()
    } else {
        let r = reads.last();
        if r.2 != 0 && title_read_matches(title, r.1, r.2) {
            matching_windows(title, reads.drop_last()).push(r.0)
        } else {
            matching_windows(title, reads.drop_last())
        }
    }
}

/// A title read counts as a match exactly when the units copied are the
/// requested title unit for unit, all of them: titles that differ in any unit,
/// the last included, or in length never match, and a non-match changes
/// nothing.
pub proof fn lemma_observe_matches_whole_title(
    found: (Option<usize>, nat),
    title: Seq<u16>,
    read: (usize, Seq<u16>, i32),
)
    requires
        title.len() <= read.1.len(),
    ensures
        spec_observe(found, title, read).1 == found.1 + 1 <==> {
            &&& read.2 > 0
            &&& read.2 == title.len()
            &&& forall|j: int| 0 <= j < title.len() ==> read.1[j] == title[j]
        },
        spec_observe(found, title, read).1 != found.1 + 1 ==> spec_observe(found, title, read)
            == found,
        spec_observe(found, title, read).1 == found.1 + 1 ==> spec_observe(found, title, read).0 == (
        if found.0 is Some {
            found.0
        } else {
            Some(read.0)
        }),
{
    if read.2 > 0 && read.2 == title.len() && forall|j: int|
        0 <= j < title.len() ==> read.1[j] == title[j] {
        assert(read.1.subrange(0, read.2 as int) =~= title);
    }
    if read.2 != 0 && title_read_matches(title, read.1, read.2) {
        assert forall|j: int| 0 <= j < title.len() implies read.1[j] == title[j] by {
            assert(read.1.subrange(0, read.2 as int)[j] == read.1[j]);
        }
    }
}

/// What a finished search yields for its first match and match count.
pub open spec fn spec_outcome(found: (Option<usize>, nat)) -> std::result::Result<usize, CaptureError> {
    if found.1 == 0 {
        Err(CaptureError::WindowNotFound)
    } else if found.1 == 1 && found.0 is Some {
        Ok(found.0->0)
    } else {
        Err(CaptureError::AmbiguousWindowTitle(found.1 as usize))
    }
}

/// A search counts every window whose title is exactly the requested one and
/// keeps the first of them.
proof fn lemma_search_counts_matches(title: Seq<u16>, reads: Seq<(usize, Seq<u16>, i32)>)
    ensures
        spec_search(title, reads).1 == matching_windows(title, reads).len(),
        spec_search(title, reads).0 == (if matching_windows(title, reads).len() > 0 {
            Some(matching_windows(title, reads)[0])
        } else {
            None::<usize>
        }),
    decreases reads.len(),
{
    if reads.len() > 0 {
        lemma_search_counts_matches(title, reads.drop_last());
    }
}

/// A title lookup never picks one of several windows: it finds a window only
/// when exactly one title matched, and then that window; no match and several
/// matches are distinct errors, the latter with the number of matches.
pub proof fn lemma_title_search_outcome(title: Seq<u16>, reads: Seq<(usize, Seq<u16>, i32)>)
    ensures
        ({
            let m = matching_windows(title, reads);
            spec_outcome(spec_search(title, reads)) == if m.len() == 0 {
                Err::<usize, CaptureError>(CaptureError::WindowNotFound)
            } else if m.len() == 1 {
                Ok::<usize, CaptureError>(m[0])
            } else {
                Err::<usize, CaptureError>(CaptureError::AmbiguousWindowTitle(m.len() as usize))
            }
        }),
{
    lemma_search_counts_matches(title, reads);
}

impl TitleSearch {
    /// The search is well formed: its buffer is two units longer than the
    /// title.
    pub open spec fn wf(&self) -> bool {
        &&& self.title@.len() <= MAX_TITLE_UNITS
        &&& self.buffer@.len() == self.title@.len() + 2
    }

    /// Starts a search for `title`, which is at most `MAX_TITLE_UNITS` long.
    pub fn new(title: Vec<u16>) -> (res: TitleSearch)
        requires
            title@.len() <= MAX_TITLE_UNITS,
        ensures
            res.wf(),
            res.title@ == title@,
            res.first is None,
            res.count == 0,
            res.failure is None,
            forall|i: int| 0 <= i < res.buffer@.len() ==> res.buffer@[i] == 0,
    {
        let n = title.len() + 2;
        let mut buffer: Vec<u16> = Vec::new();
        while buffer.len() < n
            invariant
                buffer@.len() <= n,
                forall|i: int| 0 <= i < buffer@.len() ==> buffer@[i] == 0,
            decreases n - buffer@.len(),
        {
            buffer.push(0);
        }
        TitleSearch { title, buffer, first: None, count: 0, failure: None }
    }

    /// Takes the result of reading one window's title into `buffer`: the
    /// number of units copied and the last Win32 error. Returns whether the
    /// search goes on.
    pub fn observe(&mut self, window: usize, copied: i32, last_error: u32) -> (go_on: bool)
        requires
            old(self).wf(),
            old(self).count < usize::MAX,
        ensures
            final(self).wf(),
            final(self).title@ == old(self).title@,
            final(self).buffer@ == old(self).buffer@,
            go_on == !read_failed(copied, last_error),
            final(self).failure == (if read_failed(copied, last_error) {
                Some(last_error)
            } else {
                old(self).failure
            }),
            final(self).count == old(self).count + 1 <==> {
                &&& copied > 0
                &&& copied == old(self).title@.len()
                &&& forall|j: int| 0 <= j < copied ==> old(self).buffer@[j] == old(self).title@[j]
            },
            final(self).count == old(self).count || final(self).count == old(self).count + 1,
            final(self).count == old(self).count ==> final(self).first == old(self).first,
            final(self).count == old(self).count + 1 ==> final(self).first == (if old(self).first is Some {
                old(self).first
            } else {
                Some(window)
            }),
            (final(self).first, final(self).count as nat) == spec_observe(
                (old(self).first, old(self).count as nat),
                old(self).title@,
                (window, old(self).buffer@, copied),
            ),
    {
        if copied == 0 {
            if last_error != ERROR_SUCCESS_CODE && last_error != ERROR_INVALID_WINDOW_HANDLE_CODE {
                self.failure = Some(last_error);
                return false;
            }
        } else if copied > 0 && copied as usize == self.title.len() && copied as usize <= self.buffer.len() {
            let n = copied as usize;
            let mut same = true;
            let mut i: usize = 0;
            while i < n
                invariant
                    n == self.title@.len(),
                    n <= self.buffer@.len(),
                    i <= n,
                    same == (forall|j: int| 0 <= j < i ==> self.buffer@[j] == self.title@[j]),
                decreases n - i,
            {
                same = same && self.buffer[i] == self.title[i];
                i = i + 1;
            }
            proof {
                if same {
                    assert(self.buffer@.subrange(0, n as int) =~= self.title@);
                } else {
                    let j = choose|j: int| 0 <= j < n && self.buffer@[j] != self.title@[j];
                    assert(self.buffer@.subrange(0, n as int)[j] != self.title@[j]);
                }
            }
            if same {
                if self.first.is_none() {
                    self.first = Some(window);
                }
                self.count = self.count + 1;
            }
        }
        true
    }

    /// What the search found once every window was seen: the one matching
    /// window, or why there is not exactly one.
    pub fn outcome(&self) -> (res: Result<usize>)
        ensures
            res == spec_outcome((self.first, self.count as nat)),
            res matches Ok(w) ==> self.count == 1 && self.first == Some(w),
            self.count == 0 ==> res == Err::<usize, CaptureError>(CaptureError::WindowNotFound),
            self.count >= 2 ==> res == Err::<usize, CaptureError>(
                CaptureError::AmbiguousWindowTitle(self.count),
            ),
    {
        match (self.count, self.first) {
            (0, _) => Err(CaptureError::WindowNotFound),
            (1, Some(window)) => Ok(window),
            (count, _) => Err(CaptureError::AmbiguousWindowTitle(count)),
        }
    }
}

/// What `check_window` returns.
pub open spec fn spec_check_window(exists: bool, minimized: bool) -> std::result::Result<(), CaptureError> {
    if !exists {
        Err(CaptureError::TargetClosed)
    } else if minimized {
        Err(CaptureError::InvalidInput("cannot capture a minimized window"))
    } else {
        Ok(())
    }
}

/// A window that does not exist is always rejected as closed, whatever the
/// minimized flag says; an existing window is captured exactly when it is not
/// minimized.
pub proof fn lemma_missing_window_is_closed(exists: bool, minimized: bool)
    ensures
        !exists ==> spec_check_window(exists, minimized) == Err::<(), CaptureError>(
            CaptureError::TargetClosed,
        ),
        spec_check_window(exists, minimized) is Ok <==> exists && !minimized,
{
}

/// Decides whether a window can be captured: it must still exist (a null or
/// destroyed handle does not), and it must not be minimized.
pub fn check_window(exists: bool, minimized: bool) -> (res: Result<()>)
    ensures
        res == spec_check_window(exists, minimized),
        !exists ==> res == Err::<(), CaptureError>(CaptureError::TargetClosed),
        res is Ok <==> exists && !minimized,
        exists && minimized ==> res == Err::<(), CaptureError>(
            CaptureError::InvalidInput("cannot capture a minimized window"),
        ),
{
    if !exists {
        return Err(CaptureError::TargetClosed);
    }
    if minimized {
        return Err(CaptureError::InvalidInput("cannot capture a minimized window"));
    }
    Ok(())
}

/// Whether a duration is zero long, as `Duration::is_zero` reports it.
pub uninterp spec fn duration_is_zero(d: Duration) -> bool;

/// Calls `std::time::Duration::is_zero`, which depends on the duration alone.
#[verifier::external_body]
fn is_zero(d: &Duration) -> (res: bool)
    ensures
        res == duration_is_zero(*d),
{
    d.is_zero()
}

/// Rejects a zero timeout: a capture must be allowed some time to wait for a
/// frame.
pub fn check_timeout(timeout: &Duration) -> (res: Result<()>)
    ensures
        duration_is_zero(*timeout) ==> res == Err::<(), CaptureError>(
            CaptureError::InvalidInput("capture timeout must be positive"),
        ),
        !duration_is_zero(*timeout) ==> res == Ok::<(), CaptureError>(()),
{
    if is_zero(timeout) {
        return Err(CaptureError::InvalidInput("capture timeout must be positive"));
    }
    Ok(())
}

} // verus!
