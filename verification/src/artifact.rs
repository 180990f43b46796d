//! Chunk artifacts: the intermediate file each page range passes through.
//! Artifact file names spell out the range they hold (`chunk_<start>-<end>.pdf`),
//! so the order of the chunks can always be recovered from the numbers rather
//! than from how a directory happens to list its entries.

use crate::digits::{all_digits, dec_rep, dec_val, format_usize, lemma_dec_rep_ok, parse_digits,
    spec_is_digit};
use crate::plan::PageRange;
use vstd::prelude::*;
use vstd::string::*;

verus! {

/// How far through the pipeline an artifact has come: freshly extracted from
/// the source document, or already recompressed.
#[derive(Clone, Copy, Debug, PartialEq, Eq, Structural)]
pub enum ArtifactStage {
    Split,
    Compressed,
}

/// One intermediate file: the page range it holds, where it lies on disk, and
/// which stage produced it.
#[derive(Debug)]
pub struct ChunkArtifact {
    pub range: PageRange,
    pub path: String,
    pub stage: ArtifactStage,
}

/// The file name that encodes a page range: `chunk_<start>-<end>.pdf`.
pub open spec fn spec_chunk_file_name(start: int, end: int) -> Seq<char> {
    "chunk_"@ + dec_rep(start) + "-"@ + dec_rep(end) + ".pdf"@
}

/// A file name inside a directory, the two joined with a single separator.
pub open spec fn spec_join(dir: Seq<char>, name: Seq<char>) -> Seq<char> {
    dir + "/"@ + name
}

/// Writes the file name that encodes a page range.
pub fn chunk_file_name(start: usize, end: usize) -> (s: String)
    ensures
        s@ == spec_chunk_file_name(start as int, end as int),
{
    let mut s = String::from_str("chunk_");
    let start_digits = format_usize(start);
    s.append(start_digits.as_str());
    s.append("-");
    let end_digits = format_usize(end);
    s.append(end_digits.as_str());
    s.append(".pdf");
    proof {
        assert(s@ =~= spec_chunk_file_name(start as int, end as int));
    }
    s
}

/// Joins a directory and a file name with a single separator.
pub fn join_path(dir: &str, name: &str) -> (s: String)
    ensures
        s@ == spec_join(dir@, name@),
{
    let mut s = String::from_str(dir);
    s.append("/");
    s.append(name);
    proof {
        assert(s@ =~= spec_join(dir@, name@));
    }
    s
}

/// The first position at or after `from` that holds `c`, or the length when
/// `c` does not occur there.
pub open spec fn first_at(s: Seq<char>, c: char, from: int) -> int
    decreases s.len() - from when 0 <= from <= s.len()
{
    if from == s.len() {
        from
    } else if s[from] == c {
        from
    } else {
        first_at(s, c, from + 1)
    }
}

/// `first_at` finds an occurrence nothing earlier precedes.
proof fn lemma_first_at_is(s: Seq<char>, c: char, from: int, pos: int)
    requires
        0 <= from <= pos < s.len(),
        s[pos] == c,
        forall|k: int| from <= k < pos ==> s[k] != c,
    ensures
        first_at(s, c, from) == pos,
    decreases pos - from,
{
    if from < pos {
        lemma_first_at_is(s, c, from + 1, pos);
    }
}

/// `first_at` reaches the length when `c` does not occur.
proof fn lemma_first_at_absent(s: Seq<char>, c: char, from: int)
    requires
        0 <= from <= s.len(),
        forall|k: int| from <= k < s.len() ==> s[k] != c,
    ensures
        first_at(s, c, from) == s.len(),
    decreases s.len() - from,
{
    if from < s.len() {
        lemma_first_at_absent(s, c, from + 1);
    }
}

/// The range a file name encodes: for `chunk_<start>-<end>.pdf`, with both
/// numbers all digits and small enough for a `usize`, the pair
/// `(<start>, <end>)`; for anything else, nothing. The numbers are read
/// numerically — `chunk_10-10.pdf` comes after `chunk_2-2.pdf`, whatever a
/// name-by-name listing would say.
pub open spec fn spec_parse_chunk_name(s: Seq<char>) -> Option<(int, int)> {
    let dash = first_at(s, '-', 6);
    let start_digits = s.subrange(6, dash);
    let end_digits = s.subrange(dash + 1, s.len() - 4);
    if s.len() >= 12 && s.take(6) == "chunk_"@ && s.skip(s.len() - 4) == ".pdf"@ && dash < s.len()
        - 4 && start_digits.len() > 0 && all_digits(start_digits) && dec_val(start_digits)
        <= usize::MAX && end_digits.len() > 0 && all_digits(end_digits) && dec_val(end_digits)
        <= usize::MAX {
        Some((dec_val(start_digits), dec_val(end_digits)))
    } else {
        None
    }
}

/// Recovers the page range a chunk artifact's file name encodes, so a later
/// stage can order chunks without re-reading any range metadata.
pub fn parse_chunk_file_name(name: &str) -> (r: Option<(usize, usize)>)
    ensures
        match r {
            Some(p) => spec_parse_chunk_name(name@) == Some((p.0 as int, p.1 as int)),
            None => spec_parse_chunk_name(name@) == Option::<(int, int)>::None,
        },
{
    proof {
        reveal_strlit("chunk_");
        reveal_strlit(".pdf");
    }
    let len = name.unicode_len();
    if len < 12 {
        return None;
    }
    let prefix_ok = name.get_char(0) == 'c' && name.get_char(1) == 'h' && name.get_char(2) == 'u'
        && name.get_char(3) == 'n' && name.get_char(4) == 'k' && name.get_char(5) == '_';
    if !prefix_ok {
        proof {
            assert(name@.take(6) != "chunk_"@) by {
                assert("chunk_"@[0] == 'c' && "chunk_"@[1] == 'h' && "chunk_"@[2] == 'u'
                    && "chunk_"@[3] == 'n' && "chunk_"@[4] == 'k' && "chunk_"@[5] == '_');
                if name@.take(6) == "chunk_"@ {
                    assert(forall|k: int| 0 <= k < 6 ==> #[trigger] name@.take(6)[k] == name@[k]);
                }
            }
        }
        return None;
    }
    let suffix_ok = name.get_char(len - 4) == '.' && name.get_char(len - 3) == 'p' && name.get_char(
        len - 2,
    ) == 'd' && name.get_char(len - 1) == 'f';
    if !suffix_ok {
        proof {
            assert(name@.skip(len as int - 4) != ".pdf"@) by {
                assert(".pdf"@[0] == '.' && ".pdf"@[1] == 'p' && ".pdf"@[2] == 'd' && ".pdf"@[3]
                    == 'f');
                if name@.skip(len as int - 4) == ".pdf"@ {
                    assert(forall|k: int|
                        0 <= k < 4 ==> #[trigger] name@.skip(len as int - 4)[k] == name@[len - 4
                            + k]);
                }
            }
        }
        return None;
    }
    proof {
        assert(name@.take(6) =~= "chunk_"@);
        assert(name@.skip(len as int - 4) =~= ".pdf"@);
    }
    let mut i: usize = 6;
    while i < len && !(name.get_char(i) == '-')
        invariant
            6 <= i <= len,
            len == name@.len(),
            forall|k: int| 6 <= k < i ==> name@[k] != '-',
        decreases len - i,
    {
        i = i + 1;
    }
    proof {
        if i < len {
            lemma_first_at_is(name@, '-', 6, i as int);
        } else {
            lemma_first_at_absent(name@, '-', 6);
        }
    }
    if i >= len - 4 {
        return None;
    }
    let start = match parse_digits(name, 6, i) {
        Some(v) => v,
        None => {
            return None;
        },
    };
    let end = match parse_digits(name, i + 1, len - 4) {
        Some(v) => v,
        None => {
            return None;
        },
    };
    Some((start, end))
}

/// A chunk file name gives back exactly the pages it was written for: naming
/// and recovery are inverse to one another.
pub proof fn lemma_chunk_name_round_trip(start: int, end: int)
    requires
        0 <= start <= usize::MAX,
        0 <= end <= usize::MAX,
    ensures
        spec_parse_chunk_name(spec_chunk_file_name(start, end)) == Some((start, end)),
{
    reveal_strlit("chunk_");
    reveal_strlit("-");
    reveal_strlit(".pdf");
    let s = spec_chunk_file_name(start, end);
    let sd = dec_rep(start);
    let ed = dec_rep(end);
    lemma_dec_rep_ok(start);
    lemma_dec_rep_ok(end);
    let dash = 6 + sd.len() as int;
    assert(s.len() == 11 + sd.len() + ed.len());
    assert(s[dash] == '-');
    assert forall|k: int| 6 <= k < dash implies s[k] != '-' by {
        assert(s[k] == sd[k - 6]);
        assert(spec_is_digit(sd[k - 6]));
    }
    lemma_first_at_is(s, '-', 6, dash);
    assert(s.take(6) =~= "chunk_"@);
    assert(s.skip(s.len() - 4) =~= ".pdf"@);
    assert(s.subrange(6, dash) =~= sd);
    assert(s.subrange(dash + 1, s.len() - 4) =~= ed);
}

/// The artifact the split stage writes for a range: the range's own file name
/// under the split scratch directory.
pub fn split_artifact(split_dir: &str, range: PageRange) -> (a: ChunkArtifact)
    ensures
        a.range == range,
        a.stage == ArtifactStage::Split,
        a.path@ == spec_join(
            split_dir@,
            spec_chunk_file_name(range.start as int, range.end as int),
        ),
{
    let name = chunk_file_name(range.start, range.end);
    ChunkArtifact {
        range,
        path: join_path(split_dir, name.as_str()),
        stage: ArtifactStage::Split,
    }
}

/// The artifact the compress stage writes for a range: the same base file
/// name as the split artifact, under the compressed scratch directory, so the
/// two stages never share a path and the name keeps encoding the range.
pub fn compressed_artifact(compressed_dir: &str, range: PageRange) -> (a: ChunkArtifact)
    ensures
        a.range == range,
        a.stage == ArtifactStage::Compressed,
        a.path@ == spec_join(
            compressed_dir@,
            spec_chunk_file_name(range.start as int, range.end as int),
        ),
{
    let name = chunk_file_name(range.start, range.end);
    ChunkArtifact {
        range,
        path: join_path(compressed_dir, name.as_str()),
        stage: ArtifactStage::Compressed,
    }
}

} // verus!
