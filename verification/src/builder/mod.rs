//! The build pipeline's verified core: configuration of a pipeline run, its
//! errors, and the parser for the official Kemendagri village decree.
use vstd::prelude::*;

pub mod columns;
pub mod district;
pub mod headers;
pub mod islands;
pub mod keywords;
pub mod lines;
pub mod merge;
pub mod notes;
pub mod numbers;
pub mod parse;
pub mod tables;
pub mod util;
pub mod village;

use crate::text::{string_of_chars, to_chars};
pub use crate::builder::parse::ParseOutputDetail;

verus! {

/// The government decree number and year that the decree data is based on.
pub const DATA_DECREE: &'static str = "Kepmendagri No 300.2.2-2138 Tahun 2025";

/// Default download address of the decree PDF.
pub const PDF_URL: &'static str =
    "https://drive.google.com/uc?export=download&id=1o_m621D00TtwCwQMLn8XUnV3nolamPDm";

/// Default query endpoint of the BIG village boundary service.
pub const BIG_API_URL: &'static str =
    "https://geoservices.big.go.id/gis/rest/services/BAPANAS/Batas_Administrasi/MapServer/2/query";

/// How to classify multi-ring polygon features.
#[derive(Debug, Clone, Copy, PartialEq, Eq, Structural)]
pub enum RingClassification {
    /// Treat all rings as separate outer polygons (MultiPolygon).
    SeparateRings,
    /// Use spatial containment to detect holes.
    ClassifyHoles,
}

// ---------------------------------------------------------------------------
// Errors
// ---------------------------------------------------------------------------
/// Error returned when a pipeline step fails: a message, and the error it wraps.
pub struct PipelineError {
    message: String,
    source: Option<Box<PipelineError>>,
}

impl PipelineError {
    /// The messages of this error and of the errors it wraps, outermost first.
    pub closed spec fn chain(self) -> Seq<Seq<char>>
        decreases self,
    {
        match self.source {
            Some(b) => seq![self.message@] + (*b).chain(),
            None => seq![self.message@],
        }
    }

    /// The error this one wraps, if any.
    pub closed spec fn wrapped(self) -> Option<PipelineError> {
        match self.source {
            Some(b) => Some(*b),
            None => None,
        }
    }

    /// Creates an error with the given message and no source.
    pub fn new(msg: &str) -> (r: Self)
        ensures
            r.chain() == seq![msg@],
            r.wrapped() is None,
    {
        PipelineError { message: string_of_chars(to_chars(msg).as_slice()), source: None }
    }

    /// Wraps this error in one with the given message, keeping this one as its source.
    pub fn context(self, msg: &str) -> (r: Self)
        ensures
            r.chain() == seq![msg@] + self.chain(),
            r.wrapped() == Some(self),
    {
        PipelineError {
            message: string_of_chars(to_chars(msg).as_slice()),
            source: Some(Box::new(self)),
        }
    }

    /// The message of this error.
    pub fn to_string(&self) -> (r: String)
        ensures
            r@ == self.chain()[0],
    {
        string_of_chars(to_chars(self.message.as_str()).as_slice())
    }

    /// The error this one wraps, if any.
    pub fn source(&self) -> (r: Option<&PipelineError>)
        ensures
            match self.wrapped() {
                Some(e) => r matches Some(x) && *x == e,
                None => r is None,
            },
            r matches Some(x) ==> self.chain() == seq![self.chain()[0]] + x.chain(),
    {
        match &self.source {
            Some(b) => Some(&**b),
            None => None,
        }
    }
}

/// Output of a successful pipeline run.
pub struct PipelineOutput {
    /// Path to the built SQLite database file.
    pub db_path: String,
    /// Path to the built polygon database file, if polygons were included.
    pub poly_db_path: Option<String>,
    /// Path to the saved parsed villages JSON, if it was requested.
    pub parsed_villages_path: Option<String>,
    /// Number of villages in the database.
    pub village_count: usize,
    /// SHA-256 hash of the database file, in hexadecimal.
    pub sha256: String,
}

// ---------------------------------------------------------------------------
// Pipeline configuration
// ---------------------------------------------------------------------------
/// Configuration of a database build pipeline run.
pub struct Pipeline {
    /// Address of the decree PDF.
    pub pdf_url: String,
    /// Query endpoint of the BIG village boundary service.
    pub big_api_url: String,
    /// Directory for downloaded and intermediate files.
    pub cache_dir: String,
    /// Path of the database to build.
    pub output: String,
    /// The decree string stored in the database metadata.
    pub decree: String,
    /// Whether to fetch boundary data again even when a cached copy exists.
    pub force_refresh_big: bool,
    /// How multi-ring polygons are classified.
    pub ring_classification: RingClassification,
    /// Whether to build the polygon database as well.
    pub include_polygons: bool,
    /// Whether, and in how much detail, to save the parsed village records.
    pub save_parsed_villages: Option<ParseOutputDetail>,
}

/// The model of a pipeline configuration.
pub struct PipelineModel {
    pub pdf_url: Seq<char>,
    pub big_api_url: Seq<char>,
    pub cache_dir: Seq<char>,
    pub output: Seq<char>,
    pub decree: Seq<char>,
    pub force_refresh_big: bool,
    pub ring_classification: RingClassification,
    pub include_polygons: bool,
    pub save_parsed_villages: Option<ParseOutputDetail>,
}

impl View for Pipeline {
    type V = PipelineModel;

    open spec fn view(&self) -> PipelineModel {
        PipelineModel {
            pdf_url: self.pdf_url@,
            big_api_url: self.big_api_url@,
            cache_dir: self.cache_dir@,
            output: self.output@,
            decree: self.decree@,
            force_refresh_big: self.force_refresh_big,
            ring_classification: self.ring_classification,
            include_polygons: self.include_polygons,
            save_parsed_villages: self.save_parsed_villages,
        }
    }
}

fn owned(s: &str) -> (r: String)
    ensures
        r@ == s@,
{
    string_of_chars(to_chars(s).as_slice())
}

/// The default configuration: the official decree PDF and boundary service,
/// cache in `data/cache`, output `data/locations.db`, the current decree, cached
/// boundaries reused, rings kept separate, no polygon database and no saved
/// parse output.
pub open spec fn default_config() -> PipelineModel {
    PipelineModel {
        pdf_url: PDF_URL@,
        big_api_url: BIG_API_URL@,
        cache_dir: "data/cache"@,
        output: "data/locations.db"@,
        decree: DATA_DECREE@,
        force_refresh_big: false,
        ring_classification: RingClassification::SeparateRings,
        include_polygons: false,
        save_parsed_villages: None,
    }
}

impl Pipeline {
    /// A pipeline with the default configuration: the official decree PDF and
    /// boundary service, cache in `data/cache`, output `data/locations.db`, the
    /// current decree, cached boundaries reused, rings kept separate, no polygon
    /// database and no saved parse output.
    pub fn new() -> (r: Self)
        ensures
            r@ == default_config(),
    {
        Pipeline {
            pdf_url: owned(PDF_URL),
            big_api_url: owned(BIG_API_URL),
            cache_dir: owned("data/cache"),
            output: owned("data/locations.db"),
            decree: owned(DATA_DECREE),
            force_refresh_big: false,
            ring_classification: RingClassification::SeparateRings,
            include_polygons: false,
            save_parsed_villages: None,
        }
    }

    /// Overrides the decree PDF download address.
    pub fn pdf_url(self, url: &str) -> (r: Self)
        ensures
            r@ == (PipelineModel { pdf_url: url@, ..self@ }),
    {
        Pipeline { pdf_url: owned(url), ..self }
    }

    /// Overrides the boundary service endpoint.
    pub fn big_api_url(self, url: &str) -> (r: Self)
        ensures
            r@ == (PipelineModel { big_api_url: url@, ..self@ }),
    {
        Pipeline { big_api_url: owned(url), ..self }
    }

    /// Sets the directory where intermediate files are cached.
    pub fn cache_dir(self, dir: &str) -> (r: Self)
        ensures
            r@ == (PipelineModel { cache_dir: dir@, ..self@ }),
    {
        Pipeline { cache_dir: owned(dir), ..self }
    }

    /// Sets the output path of the database.
    pub fn output(self, path: &str) -> (r: Self)
        ensures
            r@ == (PipelineModel { output: path@, ..self@ }),
    {
        Pipeline { output: owned(path), ..self }
    }

    /// Overrides the decree string stored in the database metadata.
    pub fn decree(self, decree: &str) -> (r: Self)
        ensures
            r@ == (PipelineModel { decree: decree@, ..self@ }),
    {
        Pipeline { decree: owned(decree), ..self }
    }

    /// Whether to fetch boundary data again even when a cached copy exists.
    pub fn force_refresh_big(self, yes: bool) -> (r: Self)
        ensures
            r@ == (PipelineModel { force_refresh_big: yes, ..self@ }),
    {
        Pipeline { force_refresh_big: yes, ..self }
    }

    /// Sets how multi-ring polygon features are classified.
    pub fn ring_classification(self, mode: RingClassification) -> (r: Self)
        ensures
            r@ == (PipelineModel { ring_classification: mode, ..self@ }),
    {
        Pipeline { ring_classification: mode, ..self }
    }

    /// Whether to build the polygon database alongside the main one.
    pub fn include_polygons(self, yes: bool) -> (r: Self)
        ensures
            r@ == (PipelineModel { include_polygons: yes, ..self@ }),
    {
        Pipeline { include_polygons: yes, ..self }
    }

    /// Saves the parsed village records, in the given detail, during the run.
    pub fn save_parsed_villages(self, detail: ParseOutputDetail) -> (r: Self)
        ensures
            r@ == (PipelineModel { save_parsed_villages: Some(detail), ..self@ }),
    {
        Pipeline { save_parsed_villages: Some(detail), ..self }
    }
}

impl Default for Pipeline {
    fn default() -> (r: Self)
        ensures
            r@ == default_config(),
    {
        Pipeline::new()
    }
}

} // verus!
