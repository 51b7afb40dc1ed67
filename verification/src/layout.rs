//! Names of the files of a pyramid and the text of its descriptor.

use vstd::prelude::*;

verus! {

/// The text of one decimal digit.
pub open spec fn digit_text(d: nat) -> Seq<char> {
    if d == 0 {
        "0"@
    } else if d == 1 {
        "1"@
    } else if d == 2 {
        "2"@
    } else if d == 3 {
        "3"@
    } else if d == 4 {
        "4"@
    } else if d == 5 {
        "5"@
    } else if d == 6 {
        "6"@
    } else if d == 7 {
        "7"@
    } else if d == 8 {
        "8"@
    } else {
        "9"@
    }
}

/// The decimal text of `n`, without leading zeros.
pub open spec fn decimal(n: nat) -> Seq<char>
    decreases n,
{
    if n < 10 {
        digit_text(n)
    } else {
        decimal(n / 10) + digit_text(n % 10)
    }
}

/// File name of tile `(tx, ty)` inside the directory of its level.
pub open spec fn tile_file_name(tx: nat, ty: nat) -> Seq<char> {
    decimal(tx) + "_"@ + decimal(ty) + ".jpg"@
}

/// Text of the descriptor of a pyramid with the given tile edge and canvas
/// size.
pub open spec fn descriptor_text(tile_size: nat, full_width: nat, full_height: nat) -> Seq<char> {
    "<?xml version=\"1.0\" encoding=\"UTF-8\"?><Image xmlns=\"http://schemas.microsoft.com/deepzoom/2008\" TileSize=\""@
        + decimal(tile_size) + "\" Overlap=\"0\" Format=\"jpg\"><Size Width=\""@ + decimal(
        full_width,
    ) + "\" Height=\""@ + decimal(full_height) + "\"/></Image>"@
}

/// The descriptor is a function of the tile edge and the canvas size
/// alone: written twice for the same canvas, it is the same text.
pub proof fn law_descriptor_repeatable(
    first: Seq<char>,
    second: Seq<char>,
    tile_size: nat,
    full_width: nat,
    full_height: nat,
)
    requires
        first == descriptor_text(tile_size, full_width, full_height),
        second == descriptor_text(tile_size, full_width, full_height),
    ensures
        first == second,
{
}

fn digit_str(d: usize) -> (s: &'static str)
    requires
        d < 10,
    ensures
        s@ == digit_text(d as nat),
{
    if d == 0 {
        "0"
    } else if d == 1 {
        "1"
    } else if d == 2 {
        "2"
    } else if d == 3 {
        "3"
    } else if d == 4 {
        "4"
    } else if d == 5 {
        "5"
    } else if d == 6 {
        "6"
    } else if d == 7 {
        "7"
    } else if d == 8 {
        "8"
    } else {
        "9"
    }
}

/// Appends the decimal text of `n`.
pub fn push_decimal(out: &mut String, n: usize)
    ensures
        final(out)@ == old(out)@ + decimal(n as nat),
    decreases n,
{
    if n >= 10 {
        push_decimal(out, n / 10);
    }
    out.append(digit_str(n % 10));
    proof {
        if n >= 10 {
            assert(old(out)@ + decimal((n / 10) as nat) + digit_text((n % 10) as nat) =~= old(out)@
                + (decimal((n / 10) as nat) + digit_text((n % 10) as nat)));
        }
    }
}

/// Path of the file of tile `(tx, ty)` in the level directory `dir`.
pub fn img_out_path(dir: &str, tx: usize, ty: usize) -> (path: String)
    ensures
        path@ == dir@ + "/"@ + tile_file_name(tx as nat, ty as nat),
{
    let mut path = String::from_str(dir);
    path.append("/");
    push_decimal(&mut path, tx);
    path.append("_");
    push_decimal(&mut path, ty);
    path.append(".jpg");
    proof {
        assert(path@ =~= dir@ + "/"@ + tile_file_name(tx as nat, ty as nat));
    }
    path
}

/// Path of the directory of one level below the output directory `dir`.
pub fn level_dir(dir: &str, level: usize) -> (path: String)
    ensures
        path@ == dir@ + "/"@ + decimal(level as nat),
{
    let mut path = String::from_str(dir);
    path.append("/");
    push_decimal(&mut path, level);
    path
}

/// The descriptor: an XML document that gives the tile edge and the canvas
/// size; overlap is always 0 and the format always `jpg`.
pub fn descriptor(tile_size: usize, full_width: usize, full_height: usize) -> (xml: String)
    ensures
        xml@ == descriptor_text(tile_size as nat, full_width as nat, full_height as nat),
{
    let mut xml = String::from_str(
        "<?xml version=\"1.0\" encoding=\"UTF-8\"?><Image xmlns=\"http://schemas.microsoft.com/deepzoom/2008\" TileSize=\"",
    );
    push_decimal(&mut xml, tile_size);
    xml.append("\" Overlap=\"0\" Format=\"jpg\"><Size Width=\"");
    push_decimal(&mut xml, full_width);
    xml.append("\" Height=\"");
    push_decimal(&mut xml, full_height);
    xml.append("\"/></Image>");
    xml
}

} // verus!
