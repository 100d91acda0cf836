//! File names of the generated image variants.

use vstd::prelude::*;
use crate::text::push_char;

verus! {

/// The decimal digit character of `d`.
pub open spec fn digit_char(d: nat) -> char {
    if d == 0 { '0' } else if d == 1 { '1' } else if d == 2 { '2' } else if d == 3 { '3' }
    else if d == 4 { '4' } else if d == 5 { '5' } else if d == 6 { '6' } else if d == 7 { '7' }
    else if d == 8 { '8' } else { '9' }
}

/// The decimal representation of `n`, as `u32`'s `Display` writes it.
pub open spec fn decimal(n: nat) -> Seq<char>
    decreases n,
{
    if n < 10 { seq![digit_char(n)] } else { decimal(n / 10).push(digit_char(n % 10)) }
}

fn digit(d: u32) -> (c: char)
    requires
        d < 10,
    ensures
        c == digit_char(d as nat),
{
    if d == 0 { '0' } else if d == 1 { '1' } else if d == 2 { '2' } else if d == 3 { '3' }
    else if d == 4 { '4' } else if d == 5 { '5' } else if d == 6 { '6' } else if d == 7 { '7' }
    else if d == 8 { '8' } else { '9' }
}

/// Appends the decimal representation of `n`.
fn push_decimal(s: &mut String, n: u32)
    ensures
        final(s)@ == old(s)@ + decimal(n as nat),
    decreases n,
{
    if n < 10 {
        push_char(s, digit(n));
        proof {
            assert(final(s)@ =~= old(s)@ + decimal(n as nat));
        }
    } else {
        push_decimal(s, n / 10);
        push_char(s, digit(n % 10));
        proof {
            assert(final(s)@ =~= old(s)@ + decimal(n as nat));
        }
    }
}

/// The file names of the variants of one width: `{w}w.jpg`,
/// `{w}w-prog.jpg` and `{w}w.webp`.
pub open spec fn variant_names_spec(width: nat) -> (Seq<char>, Seq<char>, Seq<char>) {
    (decimal(width) + "w.jpg"@, decimal(width) + "w-prog.jpg"@, decimal(width) + "w.webp"@)
}

/// The file names of the JPEG, progressive JPEG and WebP variants of one
/// width.
pub fn variant_names(width: u32) -> (r: (String, String, String))
    ensures
        (r.0@, r.1@, r.2@) == variant_names_spec(width as nat),
{
    let mut jpeg = String::new();
    push_decimal(&mut jpeg, width);
    let mut prog = jpeg.clone();
    let mut webp = jpeg.clone();
    jpeg.append("w.jpg");
    prog.append("w-prog.jpg");
    webp.append("w.webp");
    (jpeg, prog, webp)
}

/// The outputs kept for one width: the progressive JPEG when it could be
/// made, otherwise the plain JPEG, and then the WebP.
pub open spec fn variant_outputs_spec(width: nat, progressive_made: bool) -> Seq<Seq<char>> {
    let (jpeg, prog, webp) = variant_names_spec(width);
    seq![if progressive_made { prog } else { jpeg }, webp]
}

/// The outputs kept for one width.
pub fn variant_outputs(width: u32, progressive_made: bool) -> (r: Vec<String>)
    ensures
        crate::text::string_views(r@) == variant_outputs_spec(width as nat, progressive_made),
{
    let (jpeg, prog, webp) = variant_names(width);
    let mut out: Vec<String> = Vec::new();
    if progressive_made {
        out.push(prog);
    } else {
        out.push(jpeg);
    }
    out.push(webp);
    proof {
        assert(crate::text::string_views(out@) =~= variant_outputs_spec(width as nat, progressive_made));
    }
    out
}

} // verus!
