//! Markdown rendering of specification records.

use vstd::prelude::*;
use crate::specs::{CamerasModel, Spec, SpecModel};

verus! {

/// A field's text, or `N/A` when the field is empty.
pub open spec fn or_na(o: Option<Seq<char>>) -> Seq<char> {
    match o {
        Some(s) => s,
        None => "N/A"@,
    }
}

/// A table line `| label | value |`.
pub open spec fn md_row(label: Seq<char>, value: Seq<char>) -> Seq<char> {
    "| "@ + label + " | "@ + value + " |\n"@
}

/// The camera lines: main camera and telephoto when the record has cameras,
/// a single `Cameras` line with `N/A` otherwise.
pub open spec fn camera_lines(c: Option<CamerasModel>) -> Seq<char> {
    match c {
        Some(c) => md_row("Main camera"@, or_na(c.main)) + md_row("Telephoto"@, or_na(c.telephoto)),
        None => "| Cameras | N/A |\n"@,
    }
}

/// The Markdown of a record: a heading with brand (empty when absent) and
/// model, then a two-column table with display, memory, storage and the
/// camera lines.
pub open spec fn markdown_spec(s: SpecModel) -> Seq<char> {
    "# "@ + (match s.brand { Some(b) => b, None => Seq::<char>::empty() }) + " "@ + s.model + "\n\n"@
        + "| Field | Value |\n|---|---|\n"@
        + md_row("Display"@, or_na(s.display))
        + md_row("Memory"@, or_na(s.memory))
        + md_row("Storage"@, or_na(s.storage))
        + camera_lines(s.cameras)
}

fn push_row(md: &mut String, label: &str, value: &Option<String>)
    ensures
        final(md)@ == old(md)@ + md_row(label@, or_na(crate::specs::opt_view(*value))),
{
    md.append("| ");
    md.append(label);
    md.append(" | ");
    match value {
        Some(v) => md.append(v.as_str()),
        None => md.append("N/A"),
    }
    md.append(" |\n");
    proof {
        assert(final(md)@ =~= old(md)@ + md_row(label@, or_na(crate::specs::opt_view(*value))));
    }
}

/// Renders a record as Markdown.
pub fn render_to_markdown(spec: &Spec) -> (md: String)
    ensures
        md@ == markdown_spec(spec@),
{
    let mut md = String::new();
    md.append("# ");
    match &spec.brand {
        Some(b) => md.append(b.as_str()),
        None => {},
    }
    md.append(" ");
    md.append(spec.model.as_str());
    md.append("\n\n");
    md.append("| Field | Value |\n|---|---|\n");
    push_row(&mut md, "Display", &spec.display);
    push_row(&mut md, "Memory", &spec.memory);
    push_row(&mut md, "Storage", &spec.storage);
    match &spec.cameras {
        Some(lens) => {
            push_row(&mut md, "Main camera", &lens.main);
            push_row(&mut md, "Telephoto", &lens.telephoto);
        },
        None => {
            md.append("| Cameras | N/A |\n");
        },
    }
    proof {
        assert(md@ =~= markdown_spec(spec@));
    }
    md
}

/// The table row `| {label} | {value} |` with its line break.
pub open spec fn table_line(label: Seq<char>, value: Seq<char>) -> Seq<char> {
    "| "@ + label + " | "@ + value + " |\n"@
}

/// The Markdown of a record, line by line: the heading `# {brand} {model}`
/// (an absent brand left empty), a blank line, the table header, then the
/// rows Display, Memory and Storage with the record's own fields, then,
/// when the record has cameras, a Main camera row holding exactly the main
/// camera and a Telephoto row holding exactly the telephoto camera (no
/// other role is shown), or else a single Cameras row; an absent value
/// reads `N/A`.
pub proof fn lemma_markdown_layout(s: SpecModel)
    ensures
        markdown_spec(s) == "# "@ + (match s.brand { Some(b) => b, None => Seq::<char>::empty() }) + " "@ + s.model
            + "\n\n"@ + "| Field | Value |\n|---|---|\n"@
            + table_line("Display"@, match s.display { Some(d) => d, None => "N/A"@ })
            + table_line("Memory"@, match s.memory { Some(m) => m, None => "N/A"@ })
            + table_line("Storage"@, match s.storage { Some(t) => t, None => "N/A"@ })
            + match s.cameras {
                Some(c) => table_line("Main camera"@, match c.main { Some(m) => m, None => "N/A"@ })
                    + table_line("Telephoto"@, match c.telephoto { Some(t) => t, None => "N/A"@ }),
                None => "| Cameras | N/A |\n"@,
            },
{
}

/// Records that differ only in camera roles other than main and telephoto
/// have the same Markdown.
pub proof fn lemma_markdown_ignores_other_roles(s: SpecModel, c1: CamerasModel, c2: CamerasModel)
    requires
        c1.main == c2.main,
        c1.telephoto == c2.telephoto,
    ensures
        markdown_spec(SpecModel { cameras: Some(c1), ..s }) == markdown_spec(SpecModel { cameras: Some(c2), ..s }),
{
    lemma_markdown_layout(SpecModel { cameras: Some(c1), ..s });
    lemma_markdown_layout(SpecModel { cameras: Some(c2), ..s });
}

} // verus!
