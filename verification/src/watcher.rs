//! The filesystem reconciler's decisions.
//!
//! A watched directory drives the store: a file named `<name>:<port>.<ext>`
//! carries one key's snapshot, the extension picking the decoder. On a
//! modify event the file's records are folded into a snapshot and
//! published; on a delete event the key is retracted. A bad filename or
//! bad contents skips that one event and nothing else.

use vstd::prelude::*;
use vstd::string::StrSliceExecFns;
use crate::codec::{
    decode_json_records, decode_yaml_records, json_of, spec_decode_records, yaml_of, DecodeError,
    JsonV,
};
use crate::dst::{spec_parse_dst, Dst, DstV};
use crate::endpoints::{eps_pairs, EndpointMeta, Endpoints};
use crate::kv::kv_map;
use crate::store::DstService;
use crate::text::{last_ix, lemma_last_ix, rfind_char};

verus! {

/// Which decoder a file's extension selects.
#[derive(Clone, Copy, PartialEq, Eq, Structural, Debug)]
pub enum FileType {
    Yaml,
    Json,
}

/// Why a filesystem event was skipped.
#[derive(Debug)]
pub struct FsWatcherError {
    pub reason: &'static str,
}

impl FsWatcherError {
    /// The human-readable reason, for callers that log the skip.
    pub fn reason(&self) -> (r: &'static str)
        ensures
            r == self.reason,
    {
        self.reason
    }
}

/// `<name>:<port>.<ext>` with `ext` one of `yaml`, `yml`, `json`: the
/// extension follows the last `.`, and the stem parses as a routing key.
pub open spec fn spec_parse_file_name(s: Seq<char>) -> Option<(DstV, FileType)> {
    let i = last_ix(s, '.');
    if i < 0 {
        None
    } else {
        let stem = s.take(i);
        let ext = s.skip(i + 1);
        let ft = if ext == "yaml"@ || ext == "yml"@ {
            Some(FileType::Yaml)
        } else if ext == "json"@ {
            Some(FileType::Json)
        } else {
            None
        };
        match (spec_parse_dst(stem), ft) {
            (Some(d), Some(f)) => Some((d, f)),
            _ => None,
        }
    }
}

/// The tree a file's text parses to under the decoder its extension
/// selected.
pub open spec fn parsed_tree(contents: Seq<char>, ft: FileType) -> Option<JsonV> {
    match ft {
        FileType::Json => json_of(contents),
        FileType::Yaml => yaml_of(contents),
    }
}

/// What one filesystem event asks the store to do.
#[derive(Debug)]
pub enum FsAction {
    /// The file vanished: retract its key.
    Retract(Dst),
    /// The file changed: decode it with the named decoder and publish.
    Load(Dst, FileType),
}

/// The filesystem reconciler: holds the watched directory; the event
/// loop around it reads files and applies the planned actions.
#[derive(Debug)]
pub struct FsWatcher {
    endpoints_dir: String,
}

impl FsWatcher {
    /// The watched directory.
    pub closed spec fn spec_dir(&self) -> Seq<char> {
        self.endpoints_dir@
    }

    /// A reconciler watching one directory.
    pub fn new(endpoints_dir: String) -> (r: FsWatcher)
        ensures
            r.spec_dir() == endpoints_dir@,
    {
        FsWatcher { endpoints_dir }
    }

    /// Read access to the watched directory.
    pub fn dir(&self) -> (r: &String)
        ensures
            r@ == self.spec_dir(),
    {
        &self.endpoints_dir
    }

    /// Splits a file name into its routing key and decoder. The accepted
    /// names are exactly those of `spec_parse_file_name`.
    pub fn parse_dst(file_name: &str) -> (r: Result<(Dst, FileType), FsWatcherError>)
        ensures
            match r {
                Ok(p) => spec_parse_file_name(file_name@) == Some((p.0@, p.1)),
                Err(_) => spec_parse_file_name(file_name@) is None,
            },
    {
        let n: usize = file_name.unicode_len();
        let i: usize = match rfind_char(file_name, '.') {
            Some(i) => i,
            None => {
                return Err(FsWatcherError { reason: "invalid file name" });
            },
        };
        let stem: &str = file_name.substring_char(0, i);
        let ext: &str = file_name.substring_char(i + 1, n);
        proof {
            lemma_last_ix(file_name@, '.');
            assert(stem@ =~= file_name@.take(i as int));
            assert(ext@ =~= file_name@.skip(i + 1));
        }
        let ft: FileType = if crate::text::str_eq(ext, "yaml") || crate::text::str_eq(ext, "yml") {
            FileType::Yaml
        } else if crate::text::str_eq(ext, "json") {
            FileType::Json
        } else {
            return Err(FsWatcherError { reason: "invalid file extension" });
        };
        match Dst::from_str(stem) {
            Ok(d) => Ok((d, ft)),
            Err(_) => Err(FsWatcherError { reason: "invalid destination in file name" }),
        }
    }

    /// Decides what one event means: a delete retracts the file's key,
    /// anything else loads and publishes it; a name outside the
    /// convention skips the event.
    pub fn plan_event(file_name: &str, deleted: bool) -> (r: Result<FsAction, FsWatcherError>)
        ensures
            match r {
                Ok(a) => spec_parse_file_name(file_name@) matches Some(p) && (match a {
                    FsAction::Retract(d) => deleted && d@ == p.0,
                    FsAction::Load(d, ft) => !deleted && d@ == p.0 && ft == p.1,
                }),
                Err(_) => spec_parse_file_name(file_name@) is None,
            },
    {
        match Self::parse_dst(file_name) {
            Ok(p) => {
                if deleted {
                    Ok(FsAction::Retract(p.0))
                } else {
                    Ok(FsAction::Load(p.0, p.1))
                }
            },
            Err(e) => Err(e),
        }
    }

    /// Decodes a watched file's contents into an ordered record list,
    /// with the decoder its extension selected: exactly the records that
    /// `spec_decode_records` reads from the tree the text parses to, and
    /// an error exactly when the text does not parse or a record breaks
    /// a field rule.
    pub fn parse_file(contents: &str, ft: FileType) -> (r: Result<Vec<EndpointMeta>, DecodeError>)
        ensures
            match r {
                Ok(v) => parsed_tree(contents@, ft) matches Some(t) && spec_decode_records(t)
                    == Some(v@.map_values(|m: EndpointMeta| m@)),
                Err(_) => parsed_tree(contents@, ft) is None || (parsed_tree(contents@, ft)
                    matches Some(t) && spec_decode_records(t) is None),
            },
    {
        match ft {
            FileType::Json => decode_json_records(contents),
            FileType::Yaml => decode_yaml_records(contents),
        }
    }

    /// Folds decoded records into a snapshot — on a duplicate address the
    /// last record wins — and publishes it for the file's key.
    pub fn apply_records(store: &mut DstService, dst: Dst, records: Vec<EndpointMeta>)
        requires
            old(store).wf(),
        ensures
            final(store).wf(),
            final(store).eps_view() == old(store).eps_view().insert(
                dst@,
                kv_map(eps_pairs(records@)),
            ),
            final(store).ovr_entries() == old(store).ovr_entries(),
    {
        let eps: Endpoints = Endpoints::from_records(records);
        store.publish(dst, eps);
    }

    /// Retracts the key of a deleted file.
    pub fn apply_delete(store: &mut DstService, dst: &Dst)
        requires
            old(store).wf(),
        ensures
            final(store).wf(),
            final(store).eps_view() == old(store).eps_view().remove(dst@),
            final(store).ovr_entries() == old(store).ovr_entries(),
    {
        store.retract(dst);
    }
}
} // verus!
