//! What a pulled image is reported with.

use crate::names::texts;
use crate::render::{decimal, decimal_text, law_decimal_reads_back};
use crate::text::{digits_value, joined};
use vstd::prelude::*;

verus! {

/// The arguments of the command.
#[derive(Debug)]
pub struct PullArgs {
    /// Image to pull.
    pub image: String,
    /// Quiet mode: only the digest is shown.
    pub quiet: bool,
}

/// An image that has been pulled: by a server, which tells its reference and identifier, or into
/// the local store.
#[derive(Debug)]
pub enum Pulled {
    Remote { reference: String, id: String },
    Local { reference: String, config_digest: String, layer_count: usize },
}

pub open spec fn pulled_text(image: Pulled, quiet: bool) -> Seq<Seq<char>> {
    match image {
        Pulled::Remote { reference, id } => if quiet {
            seq![id@]
        } else {
            seq!["Pulled: "@ + reference@, "ID: "@ + id@]
        },
        Pulled::Local { reference, config_digest, layer_count } => if quiet {
            seq![config_digest@]
        } else {
            seq![
                "Pulled: "@ + reference@,
                "Digest: "@ + config_digest@,
                "Layers: "@ + decimal(layer_count as nat),
            ]
        },
    }
}

/// The lines that report a pulled image.
pub fn pulled_lines(image: &Pulled, quiet: bool) -> (r: Vec<String>)
    ensures
        texts(r@) == pulled_text(*image, quiet),
{
    let mut r: Vec<String> = Vec::new();
    match image {
        Pulled::Remote { reference, id } => if quiet {
            r.push(id.clone());
        } else {
            r.push(joined("Pulled: ", reference.as_str()));
            r.push(joined("ID: ", id.as_str()));
        },
        Pulled::Local { reference, config_digest, layer_count } => if quiet {
            r.push(config_digest.clone());
        } else {
            r.push(joined("Pulled: ", reference.as_str()));
            r.push(joined("Digest: ", config_digest.as_str()));
            let count: String = decimal_text(*layer_count as u64);
            r.push(joined("Layers: ", count.as_str()));
        },
    }
    assert(texts(r@) =~= pulled_text(*image, quiet));
    r
}

/// In quiet mode the only line is what identifies the image: its identifier, or the digest of its
/// configuration.
pub proof fn law_quiet_shows_the_identifier(image: Pulled)
    ensures
        pulled_text(image, true).len() == 1,
        image matches Pulled::Remote { reference, id } ==> pulled_text(image, true)[0] == id@,
        image matches Pulled::Local { reference, config_digest, layer_count } ==> pulled_text(
            image,
            true,
        )[0] == config_digest@,
{
}

/// Otherwise each line holds its value behind its label: the reference first, then what identifies
/// the image, and for the local store how many layers it has, as a number that reads back.
pub proof fn law_lines_hold_the_values(image: Pulled)
    ensures
        image matches Pulled::Remote { reference, id } ==> {
            let text = pulled_text(image, false);
            &&& text.len() == 2
            &&& text[0].skip("Pulled: "@.len() as int) == reference@
            &&& text[1].skip("ID: "@.len() as int) == id@
        },
        image matches Pulled::Local { reference, config_digest, layer_count } ==> {
            let text = pulled_text(image, false);
            &&& text.len() == 3
            &&& text[0].skip("Pulled: "@.len() as int) == reference@
            &&& text[1].skip("Digest: "@.len() as int) == config_digest@
            &&& digits_value(text[2].skip("Layers: "@.len() as int)) == layer_count
        },
{
    match image {
        Pulled::Remote { reference, id } => {
            lemma_behind_label("Pulled: "@, reference@);
            lemma_behind_label("ID: "@, id@);
        },
        Pulled::Local { reference, config_digest, layer_count } => {
            lemma_behind_label("Pulled: "@, reference@);
            lemma_behind_label("Digest: "@, config_digest@);
            lemma_behind_label("Layers: "@, decimal(layer_count as nat));
            law_decimal_reads_back(layer_count as nat);
        },
    }
}

proof fn lemma_behind_label(label: Seq<char>, value: Seq<char>)
    ensures
        (label + value).skip(label.len() as int) == value,
{
    assert((label + value).skip(label.len() as int) =~= value);
}

} // verus!
