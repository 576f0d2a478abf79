//! Build-time configuration for reflection-aware generated code.
//!
//! A `Builder` records where the compiled descriptor-set bytes are written
//! and the expression generated code uses to reach the process-wide
//! descriptor pool, and computes the attribute lines to attach to each
//! generated message type.  Invoking the external schema compiler and
//! reading its output are I/O and live with the embedding program.

use vstd::prelude::*;

verus! {

/// Configuration for generating accessor code that can reach its own
/// message descriptor at run time.
#[derive(Debug, Clone)]
pub struct Builder {
    pub file_descriptor_set_path: String,
    pub file_descriptor_expr: String,
}

/// Relies on `String::push_str`: appends the characters of `s` to `buf`.
#[verifier::external_body]
fn push_str(buf: &mut String, s: &str)
    ensures
        final(buf)@ == old(buf)@ + s@,
{
    buf.push_str(s);
}

impl Builder {
    /// A builder with default parameters: the descriptor set is written to
    /// `file_descriptor_set.bin` in the output directory the embedding
    /// program chooses, and generated code reaches the pool through
    /// `crate::FILE_DESCRIPTOR`.
    pub fn new() -> (r: Builder)
        ensures
            r.file_descriptor_set_path@ == "file_descriptor_set.bin"@,
            r.file_descriptor_expr@ == "crate::FILE_DESCRIPTOR"@,
    {
        Builder {
            file_descriptor_set_path: "file_descriptor_set.bin".to_owned(),
            file_descriptor_expr: "crate::FILE_DESCRIPTOR".to_owned(),
        }
    }

    /// Sets the path where the encoded file descriptor set is created.
    pub fn file_descriptor_set_path(&mut self, path: String)
        ensures
            final(self).file_descriptor_set_path == path,
            final(self).file_descriptor_expr == old(self).file_descriptor_expr,
    {
        self.file_descriptor_set_path = path;
    }

    /// Sets the expression generated code uses to reach the pool.
    pub fn file_descriptor_expr(&mut self, expr: String)
        ensures
            final(self).file_descriptor_expr == expr,
            final(self).file_descriptor_set_path == old(self).file_descriptor_set_path,
    {
        self.file_descriptor_expr = expr;
    }

    /// The attribute line that points a generated message type at its pool
    /// and message name, e.g.
    /// `#[prost_reflect(file_descriptor = "crate::FILE_DESCRIPTOR",
    /// message_name = "my.test.Parent")]`.
    pub fn reflect_attribute(&self, full_name: &str) -> (r: String)
        ensures
            r@ == "#[prost_reflect(file_descriptor = \""@ + self.file_descriptor_expr@
                + "\", message_name = \""@ + full_name@ + "\")]"@,
    {
        let mut out: String = "#[prost_reflect(file_descriptor = \"".to_owned();
        push_str(&mut out, self.file_descriptor_expr.as_str());
        push_str(&mut out, "\", message_name = \"");
        push_str(&mut out, full_name);
        push_str(&mut out, "\")]");
        proof {
            assert(out@ =~= "#[prost_reflect(file_descriptor = \""@
                + self.file_descriptor_expr@ + "\", message_name = \""@ + full_name@
                + "\")]"@);
        }
        out
    }

    /// The derive line attached to every generated message type.
    pub fn derive_attribute(&self) -> (r: String)
        ensures
            r@ == "#[derive(::prost_reflect::ReflectMessage)]"@,
    {
        "#[derive(::prost_reflect::ReflectMessage)]".to_owned()
    }
}

} // verus!
