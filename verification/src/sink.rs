//! Destination choice: where the archive stream is delivered.

use vstd::prelude::*;
use vstd::string::StringExecFns;
use vstd::string::StrSliceExecFns;

use crate::config::Config;

verus! {

/// Where the produced archive goes. Exactly one is active per run.
pub enum OutSink {
    /// Write the stream to a local file at this path.
    SaveToFile(String),
    /// Stream the bytes as the body of an HTTP POST to this address.
    UploadToUrl(String),
}

/// Whether an output setting names a network address rather than a file.
pub open spec fn spec_is_url(o: Seq<char>) -> bool {
    (o.len() >= 7 && o.subrange(0, 7) == "http://"@) || (o.len() >= 8 && o.subrange(0, 8)
        == "https://"@)
}

/// Whether `s` opens with the characters of `p`.
fn starts_with_str(s: &String, p: &str) -> (b: bool)
    ensures
        b == (s@.len() >= p@.len() && s@.subrange(0, p@.len() as int) == p@),
{
    let plen = p.unicode_len();
    if s.as_str().unicode_len() < plen {
        return false;
    }
    let mut i: usize = 0;
    while i < plen
        invariant
            plen == p@.len(),
            i <= p@.len(),
            s@.len() >= p@.len(),
            forall|j: int| 0 <= j < i ==> s@[j] == p@[j],
        decreases p@.len() - i,
    {
        if s.as_str().get_char(i) != p.get_char(i) {
            proof {
                assert(s@.subrange(0, p@.len() as int)[i as int] != p@[i as int]);
            }
            return false;
        }
        i = i + 1;
    }
    proof {
        assert(s@.subrange(0, p@.len() as int) =~= p@);
    }
    true
}

/// Chooses the destination from the merged settings: an output that opens
/// with an HTTP scheme is uploaded to; any other output names a file; with
/// no output set, a file named "archive.zip" in the working directory is
/// written.
pub fn get_output_sink(config: &Config) -> (r: OutSink)
    ensures
        match config.output {
            Some(o) => if spec_is_url(o@) {
                r matches OutSink::UploadToUrl(u) && u == o
            } else {
                r matches OutSink::SaveToFile(p) && p == o
            },
            None => r matches OutSink::SaveToFile(p) && p@ == "archive.zip"@,
        },
{
    proof {
        reveal_strlit("http://");
        reveal_strlit("https://");
    }
    match &config.output {
        Some(o) => {
            if starts_with_str(o, "http://") || starts_with_str(o, "https://") {
                OutSink::UploadToUrl(o.clone())
            } else {
                OutSink::SaveToFile(o.clone())
            }
        },
        None => OutSink::SaveToFile(String::from_str("archive.zip")),
    }
}

} // verus!
