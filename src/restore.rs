//! Decisions of the restore pipeline: the downloaded file's name, the
//! payload handed to the driver, and the reported result.

use vstd::prelude::*;
use vstd::string::*;
use crate::text::{chars_of, string_of, has_suffix};
use crate::naming::{classify_download, decrypted_name, download_kind_of, DownloadKind};
use crate::backup::status_label;
use crate::backup::status_text;

verus! {

/// Index of the first occurrence of `pat` in `s` at or after `from`.
pub open spec fn find_from(s: Seq<char>, pat: Seq<char>, from: int) -> Option<int>
    decreases s.len() + 1 - from,
{
    if from < 0 || from + pat.len() > s.len() {
        None
    } else if s.subrange(from, from + pat.len()) == pat {
        Some(from)
    } else {
        find_from(s, pat, from + 1)
    }
}

/// `s` without the double quotes at either end.
pub open spec fn trim_quotes(s: Seq<char>) -> Seq<char>
    decreases s.len(),
{
    if s.len() > 0 && s[0] == '"' {
        trim_quotes(s.drop_first())
    } else if s.len() > 0 && s.last() == '"' {
        trim_quotes(s.drop_last())
    } else {
        s
    }
}

/// The file name a `Content-Disposition` value gives: the text after the
/// first `filename=` up to the next `filename=` (or the end), without
/// surrounding quotes.
pub open spec fn disposition_name(h: Seq<char>) -> Option<Seq<char>> {
    let pat = "filename="@;
    match find_from(h, pat, 0) {
        None => None,
        Some(k) => {
            let start = k + pat.len();
            let end = match find_from(h, pat, start) {
                Some(e) => e,
                None => h.len() as int,
            };
            Some(trim_quotes(h.subrange(start, end)))
        },
    }
}

proof fn lemma_find_from_bounds(s: Seq<char>, pat: Seq<char>, from: int)
    ensures
        find_from(s, pat, from) matches Some(k) ==> from <= k && k + pat.len() <= s.len(),
    decreases s.len() + 1 - from,
{
    if !(from < 0 || from + pat.len() > s.len()) && s.subrange(from, from + pat.len()) != pat {
        lemma_find_from_bounds(s, pat, from + 1);
    }
}

fn find_from_exec(s: &Vec<char>, pat: &Vec<char>, from: usize) -> (r: Option<usize>)
    ensures
        match find_from(s@, pat@, from as int) {
            Some(k) => r == Some(k as usize),
            None => r.is_none(),
        },
{
    let total = s.len();
    let mut i: usize = from;
    if from > s.len() {
        return None;
    }
    while pat.len() <= s.len() - i
        invariant
            from <= i <= s@.len(),
            total == s@.len(),
            find_from(s@, pat@, from as int) == find_from(s@, pat@, i as int),
        decreases s@.len() - i,
    {
        let mut j: usize = 0;
        let mut same = true;
        while j < pat.len()
            invariant
                i + pat@.len() <= s@.len(),
                total == s@.len(),
                j <= pat@.len(),
                same == forall|t: int| 0 <= t < j ==> s@[i + t] == pat@[t],
            decreases pat@.len() - j,
        {
            if s[i + j] != pat[j] {
                same = false;
            }
            j = j + 1;
        }
        if same {
            assert(s@.subrange(i as int, i + pat@.len()) =~= pat@);
            return Some(i);
        }
        assert(s@.subrange(i as int, i + pat@.len()) != pat@) by {
            let t = choose|t: int| 0 <= t < pat@.len() && s@[i + t] != pat@[t];
            assert(s@.subrange(i as int, i + pat@.len())[t] == s@[i + t]);
        }
        i = i + 1;
    }
    None
}

fn trim_quotes_exec(s: &Vec<char>, lo: usize, hi: usize) -> (r: Vec<char>)
    requires
        lo <= hi <= s@.len(),
    ensures
        r@ == trim_quotes(s@.subrange(lo as int, hi as int)),
    decreases hi - lo,
{
    let ghost t = s@.subrange(lo as int, hi as int);
    if lo < hi && s[lo] == '"' {
        assert(t.drop_first() =~= s@.subrange(lo + 1, hi as int));
        trim_quotes_exec(s, lo + 1, hi)
    } else if lo < hi && s[hi - 1] == '"' {
        assert(t.drop_last() =~= s@.subrange(lo as int, hi - 1));
        trim_quotes_exec(s, lo, hi - 1)
    } else {
        let mut out: Vec<char> = Vec::new();
        let mut i: usize = lo;
        while i < hi
            invariant
                lo <= i <= hi,
                hi <= s@.len(),
                out@ == s@.subrange(lo as int, i as int),
            decreases hi - i,
        {
            out.push(s[i]);
            i = i + 1;
            assert(out@ =~= s@.subrange(lo as int, i as int));
        }
        out
    }
}

/// The file name in a `Content-Disposition` header value, if it names one.
pub fn file_name_from_disposition(header: &str) -> (r: Option<String>)
    ensures
        r.is_some() == disposition_name(header@).is_some(),
        r.is_some() ==> r.unwrap()@ == disposition_name(header@).unwrap(),
{
    let cs = chars_of(header);
    let pat = chars_of("filename=");
    proof {
        reveal_strlit("filename=");
    }
    proof {
        lemma_find_from_bounds(cs@, pat@, 0);
    }
    match find_from_exec(&cs, &pat, 0) {
        None => None,
        Some(k) => {
            let total = cs.len();
            assert(k + pat@.len() <= total);
            let start = k + pat.len();
            proof {
                lemma_find_from_bounds(cs@, pat@, start as int);
            }
            let end = match find_from_exec(&cs, &pat, start) {
                Some(e) => e,
                None => cs.len(),
            };
            let t = trim_quotes_exec(&cs, start, end);
            Some(string_of(t.as_slice()))
        },
    }
}

/// The last segment of a URL's path, if `s` parses as a URL with a path.
pub uninterp spec fn url_last_segment(s: Seq<char>) -> Option<Seq<char>>;

/// Relies on `url::Url::parse` (reached through reqwest) and
/// `Url::path_segments`: the last path segment of a URL that parses and
/// has a path.
#[verifier::external_body]
fn last_path_segment(url: &str) -> (r: Option<String>)
    ensures
        url_last_segment(url@) == (match r {
            Some(v) => Some(v@),
            None => None::<Seq<char>>,
        }),
{
    reqwest::Url::parse(url).ok().and_then(|u| u.path_segments().and_then(|mut p| p.next_back().map(|x| x.to_string())))
}

/// The name the downloaded file is stored under.
pub open spec fn download_name_of(disposition: Option<Seq<char>>, url: Seq<char>) -> Seq<char> {
    let from_url = match url_last_segment(url) {
        Some(seg) => if seg.len() > 0 { Some(seg) } else { None },
        None => None,
    };
    match disposition {
        Some(h) => match disposition_name(h) {
            Some(n) => n,
            None => match from_url {
                Some(seg) => seg,
                None => "downloaded_file"@,
            },
        },
        None => match from_url {
            Some(seg) => seg,
            None => "downloaded_file"@,
        },
    }
}

/// The downloaded file's name: from the `Content-Disposition` header, else
/// the URL's last non-empty path segment, else `downloaded_file`.
pub fn download_file_name(disposition: Option<&str>, url: &str) -> (r: String)
    ensures
        r@ == download_name_of(match disposition {
            Some(h) => Some(h@),
            None => None::<Seq<char>>,
        }, url@),
{
    proof {
        reveal_strlit("downloaded_file");
    }
    let from_header = match disposition {
        Some(h) => file_name_from_disposition(h),
        None => None,
    };
    match from_header {
        Some(n) => n,
        None => match last_path_segment(url) {
            Some(seg) => {
                if seg.as_str().unicode_len() > 0 {
                    seg
                } else {
                    String::from_str("downloaded_file")
                }
            },
            None => String::from_str("downloaded_file"),
        },
    }
}

/// What is handed to the driver after decompression: the single extracted
/// file, or the archive itself when it held several; nothing when it held
/// none.
pub fn restore_payload(extracted: &Vec<String>, archive: &String) -> (r: Option<String>)
    ensures
        extracted@.len() == 0 ==> r.is_none(),
        extracted@.len() == 1 ==> r == Some(extracted@[0]),
        extracted@.len() > 1 ==> r == Some(*archive),
{
    if extracted.len() == 0 {
        None
    } else if extracted.len() == 1 {
        Some(extracted[0].clone())
    } else {
        Some(archive.clone())
    }
}

/// The result reported to the control plane after a restore.
#[derive(Clone, Debug)]
pub struct RestoreResult {
    pub generated_id: String,
    pub status: String,
}

/// A restore succeeded only when the engine was reachable and the driver
/// restored the payload.
pub fn restore_result(generated_id: &String, reachable: bool, restored: bool) -> (r: RestoreResult)
    ensures
        r.generated_id@ == generated_id@,
        r.status@ == status_text(reachable && restored),
{
    RestoreResult { generated_id: generated_id.clone(), status: status_label(reachable && restored) }
}

/// The steps that turn a downloaded file into the driver's payload.
#[derive(Debug)]
pub enum RestorePlan {
    /// A plain dump: hand it to the driver as it is.
    UseAsIs,
    /// A `.tar.gz`: extract it.
    Decompress,
    /// A `.tar.gz.enc`: decrypt it to `archive_name`, then extract that.
    DecryptThenDecompress { archive_name: String },
    /// Anything else: fail without decrypting or extracting.
    Reject,
}

/// The steps for a download named `name`, by its suffix.
pub fn restore_plan(name: &str) -> (r: RestorePlan)
    ensures
        download_kind_of(name@) == DownloadKind::Legacy ==> r is UseAsIs,
        download_kind_of(name@) == DownloadKind::Compressed ==> r is Decompress,
        download_kind_of(name@) == DownloadKind::Unknown ==> r is Reject,
        download_kind_of(name@) == DownloadKind::Encrypted ==> (r matches RestorePlan::DecryptThenDecompress {
            archive_name,
        } && archive_name@ == name@.subrange(0, name@.len() - 4)),
{
    match classify_download(name) {
        DownloadKind::Legacy => RestorePlan::UseAsIs,
        DownloadKind::Compressed => RestorePlan::Decompress,
        DownloadKind::Unknown => RestorePlan::Reject,
        DownloadKind::Encrypted => {
            proof {
                reveal_strlit(".tar.gz.enc");
                reveal_strlit(".enc");
                let n = name@;
                assert(has_suffix(n, ".tar.gz.enc"@));
                assert(".tar.gz.enc"@.subrange(7, 11) =~= ".enc"@);
                assert(n.subrange(n.len() - 4, n.len() as int) =~= n.subrange(n.len() - 11, n.len() as int).subrange(7, 11));
                assert(has_suffix(n, ".enc"@));
            }
            match decrypted_name(name) {
                Some(a) => RestorePlan::DecryptThenDecompress { archive_name: a },
                None => RestorePlan::Reject,
            }
        },
    }
}

} // verus!
