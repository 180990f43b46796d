//! Argument lists for the external document tool's four modes: counting the
//! pages of a document, extracting a page range, recompressing one chunk, and
//! concatenating the compressed chunks. The embedding program hands each list
//! to the tool verbatim, after the tool's own executable name.

use crate::digits::dec_rep;
use crate::plan::PageRange;
use vstd::prelude::*;
use vstd::string::*;

verus! {

/// The arguments that make the tool print the page count of `source`: a
/// quiet, display-less run of a count-and-print script against the file.
pub open spec fn count_args_spec(source: Seq<char>) -> Seq<Seq<char>> {
    seq![
        "-q"@,
        "-dNOSAFER"@,
        "-dNODISPLAY"@,
        "-c"@,
        "("@ + source + ") (r) file runpdfbegin pdfpagecount = quit"@,
    ]
}

/// The arguments that extract the pages of `range` from `source` into `out`.
pub open spec fn split_args_spec(range: PageRange, source: Seq<char>, out: Seq<char>) -> Seq<
    Seq<char>,
> {
    seq![
        "-sDEVICE=pdfwrite"@,
        "-dNOPAUSE"@,
        "-dBATCH"@,
        "-dSAFER"@,
        "-dQUIET"@,
        "-dFirstPage="@ + dec_rep(range.start as int),
        "-dLastPage="@ + dec_rep(range.end as int),
        "-sOutputFile="@ + out,
        source,
    ]
}

/// The arguments that recompress the chunk at `input` into `out` with the
/// fixed ebook-grade quality preset.
pub open spec fn compress_args_spec(input: Seq<char>, out: Seq<char>) -> Seq<Seq<char>> {
    seq![
        "-sDEVICE=pdfwrite"@,
        "-dCompatibilityLevel=1.4"@,
        "-dPDFSETTINGS=/ebook"@,
        "-dNOPAUSE"@,
        "-dQUIET"@,
        "-dBATCH"@,
        "-sOutputFile="@ + out,
        input,
    ]
}

/// The arguments that concatenate `inputs`, in the order given, into `out`.
pub open spec fn merge_args_spec(inputs: Seq<Seq<char>>, out: Seq<char>) -> Seq<Seq<char>> {
    seq!["-dBATCH"@, "-dNOPAUSE"@, "-q"@, "-sDEVICE=pdfwrite"@, "-sOutputFile="@ + out] + inputs
}

/// Builds the page-count invocation for `source`.
pub fn count_args(source: &str) -> (args: Vec<String>)
    ensures
        args.deep_view() == count_args_spec(source@),
{
    let mut args: Vec<String> = Vec::new();
    args.push(String::from_str("-q"));
    args.push(String::from_str("-dNOSAFER"));
    args.push(String::from_str("-dNODISPLAY"));
    args.push(String::from_str("-c"));
    let mut script = String::from_str("(");
    script.append(source);
    script.append(") (r) file runpdfbegin pdfpagecount = quit");
    args.push(script);
    proof {
        assert(args.deep_view() =~= count_args_spec(source@));
    }
    args
}

/// Builds the range-extraction invocation for one chunk.
pub fn split_args(range: PageRange, source: &str, out: &str) -> (args: Vec<String>)
    ensures
        args.deep_view() == split_args_spec(range, source@, out@),
{
    let mut args: Vec<String> = Vec::new();
    args.push(String::from_str("-sDEVICE=pdfwrite"));
    args.push(String::from_str("-dNOPAUSE"));
    args.push(String::from_str("-dBATCH"));
    args.push(String::from_str("-dSAFER"));
    args.push(String::from_str("-dQUIET"));
    let mut first = String::from_str("-dFirstPage=");
    let first_digits = crate::digits::format_usize(range.start);
    first.append(first_digits.as_str());
    args.push(first);
    let mut last = String::from_str("-dLastPage=");
    let last_digits = crate::digits::format_usize(range.end);
    last.append(last_digits.as_str());
    args.push(last);
    let mut out_arg = String::from_str("-sOutputFile=");
    out_arg.append(out);
    args.push(out_arg);
    args.push(String::from_str(source));
    proof {
        assert(args.deep_view() =~= split_args_spec(range, source@, out@));
    }
    args
}

/// Builds the recompression invocation for one chunk.
pub fn compress_args(input: &str, out: &str) -> (args: Vec<String>)
    ensures
        args.deep_view() == compress_args_spec(input@, out@),
{
    let mut args: Vec<String> = Vec::new();
    args.push(String::from_str("-sDEVICE=pdfwrite"));
    args.push(String::from_str("-dCompatibilityLevel=1.4"));
    args.push(String::from_str("-dPDFSETTINGS=/ebook"));
    args.push(String::from_str("-dNOPAUSE"));
    args.push(String::from_str("-dQUIET"));
    args.push(String::from_str("-dBATCH"));
    let mut out_arg = String::from_str("-sOutputFile=");
    out_arg.append(out);
    args.push(out_arg);
    args.push(String::from_str(input));
    proof {
        assert(args.deep_view() =~= compress_args_spec(input@, out@));
    }
    args
}

/// Builds the single merge invocation: the fixed options, the output file,
/// then every input path in the order given.
pub fn merge_args(inputs: &Vec<String>, out: &str) -> (args: Vec<String>)
    ensures
        args.deep_view() == merge_args_spec(inputs.deep_view(), out@),
{
    let mut args: Vec<String> = Vec::new();
    args.push(String::from_str("-dBATCH"));
    args.push(String::from_str("-dNOPAUSE"));
    args.push(String::from_str("-q"));
    args.push(String::from_str("-sDEVICE=pdfwrite"));
    let mut out_arg = String::from_str("-sOutputFile=");
    out_arg.append(out);
    args.push(out_arg);
    let ghost head = args.deep_view();
    proof {
        assert(head + inputs.deep_view().take(0) =~= head);
    }
    let mut i: usize = 0;
    while i < inputs.len()
        invariant
            i <= inputs.len(),
            args.deep_view() == head + inputs.deep_view().take(i as int),
            head == merge_args_spec(Seq::<Seq<char>>::empty(), out@),
        decreases inputs.len() - i,
    {
        let ghost prev_view = args@;
        let ghost prev_dv = args.deep_view();
        let item = inputs[i].clone();
        args.push(item);
        proof {
            assert forall|j: int| 0 <= j < prev_view.len() implies #[trigger] args.deep_view()[j]
                == prev_dv[j] by {
                assert(args@[j] == prev_view[j]);
            }
            assert(args.deep_view().len() == prev_dv.len() + 1);
            assert(args.deep_view()[prev_view.len() as int] == inputs@[i as int]@);
            assert(inputs.deep_view()[i as int] == inputs@[i as int]@);
            assert(inputs.deep_view().take(i as int + 1) =~= inputs.deep_view().take(i as int).push(
                inputs@[i as int]@,
            ));
            assert(args.deep_view() =~= head + inputs.deep_view().take(i as int + 1));
        }
        i = i + 1;
    }
    proof {
        assert(inputs.deep_view().take(inputs@.len() as int) =~= inputs.deep_view());
        assert(merge_args_spec(Seq::<Seq<char>>::empty(), out@) + inputs.deep_view()
            =~= merge_args_spec(inputs.deep_view(), out@));
    }
    args
}

} // verus!
