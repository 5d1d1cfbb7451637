//! State of the drawing-inspector window.
//!
//! When a drawing file is activated, the parsed document is rendered as
//! pretty-printed JSON and offered for inspection.  Parsing and file access
//! happen outside this library; this module decides, from the outcome it is
//! handed, what the window shows: the JSON text, or an error message.

use vstd::prelude::*;
use vstd::string::StringExecFns;

verus! {

/// The parsed form of a drawing file, carried opaquely through this
/// library.
#[verifier::external_type_specification]
#[verifier::external_body]
pub struct ExDrawing(dxf::Drawing);

/// What pretty-printing a parsed drawing as JSON returns: the JSON text,
/// or the serializer's error message.  A function of the drawing alone.
pub uninterp spec fn json_of(d: dxf::Drawing) -> Result<Seq<char>, Seq<char>>;

/// The characters behind a rendering outcome.
pub open spec fn json_outcome_view(r: Result<String, String>) -> Result<Seq<char>, Seq<char>> {
    match r {
        Result::Ok(s) => Result::Ok(s@),
        Result::Err(e) => Result::Err(e@),
    }
}

/// Relies on serde_json::to_string_pretty: pretty-prints the parsed
/// document as JSON, a function of the document alone; a failure is
/// carried as its message.
#[verifier::external_body]
fn drawing_to_pretty_json(d: &dxf::Drawing) -> (r: Result<String, String>)
    ensures
        json_outcome_view(r) == json_of(*d),
{
    match serde_json::to_string_pretty(d) {
        Ok(s) => Ok(s),
        Err(e) => Err(e.to_string()),
    }
}

/// State of the drawing-inspector window.
#[derive(Debug)]
pub struct DxfViewer {
    /// Whether the window is currently shown.
    pub is_open: bool,
    /// The file being inspected.
    pub file_path: String,
    /// The document as pretty-printed JSON, when rendering succeeded.
    pub json_content: String,
    /// The error shown instead, when loading or rendering failed.
    pub error: Option<String>,
}

impl DxfViewer {
    /// A closed window showing nothing.
    pub fn new() -> (v: DxfViewer)
        ensures
            v.is_open == false,
            v.file_path@.len() == 0,
            v.json_content@.len() == 0,
            v.error is None,
    {
        DxfViewer {
            is_open: false,
            file_path: String::new(),
            json_content: String::new(),
            error: None,
        }
    }

    /// Presents the outcome of loading a drawing file.  The window opens
    /// either way: a load failure is shown as a parse error, a document
    /// that will not render as JSON as a serialization error, and
    /// otherwise the JSON text itself.
    pub fn present(&mut self, path: String, loaded: Result<&dxf::Drawing, String>)
        ensures
            final(self).is_open == true,
            final(self).file_path@ == path@,
            match loaded {
                Result::Err(msg) => {
                    &&& final(self).error matches Some(e) && e@ == "DXF parse failed: "@ + msg@
                    &&& final(self).json_content == old(self).json_content
                },
                Result::Ok(d) => match json_of(*d) {
                    Result::Ok(j) => final(self).error is None && final(self).json_content@ == j,
                    Result::Err(m) => {
                        &&& final(self).error matches Some(e) && e@
                            == "JSON serialization failed: "@ + m
                        &&& final(self).json_content == old(self).json_content
                    },
                },
            },
    {
        self.file_path = path;
        self.error = None;
        match loaded {
            Result::Ok(drawing) => {
                match drawing_to_pretty_json(drawing) {
                    Result::Ok(json) => {
                        self.json_content = json;
                        self.is_open = true;
                    },
                    Result::Err(e) => {
                        let msg = String::from_str("JSON serialization failed: ").concat(
                            e.as_str(),
                        );
                        self.error = Some(msg);
                        self.is_open = true;
                    },
                }
            },
            Result::Err(e) => {
                let msg = String::from_str("DXF parse failed: ").concat(e.as_str());
                self.error = Some(msg);
                self.is_open = true;
            },
        }
    }
}

impl Default for DxfViewer {
    /// A closed window showing nothing.
    fn default() -> (v: DxfViewer)
        ensures
            v.is_open == false,
            v.file_path@.len() == 0,
            v.json_content@.len() == 0,
            v.error is None,
    {
        DxfViewer::new()
    }
}

} // verus!
