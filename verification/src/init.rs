//! What is told of a machine's identity once it is established.
use vstd::prelude::*;
use vstd::string::*;

verus! {

/// Tells a machine's identity and where it is saved.
pub fn identity_text(machine_id: &str, label: &str, path: &str) -> (r: String)
    ensures
        r@ == "Machine ID: "@ + machine_id@ + "\nLabel:      "@ + label@ + "\nSaved to:   "@
            + path@ + "\n"@,
{
    let mut out = "Machine ID: ".to_owned();
    out.append(machine_id);
    out.append("\nLabel:      ");
    out.append(label);
    out.append("\nSaved to:   ");
    out.append(path);
    out.append("\n");
    out
}

} // verus!
