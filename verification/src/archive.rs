//! The application's state: the archive that is loaded, if any, with the
//! metadata of its import; and the operations that read or change it.

use vstd::prelude::*;

use crate::catalog::{ranges_of, Catalog, CatalogCounts, CatalogRanges};
use crate::compose::{
    compose_from_query, compose_query_result, compose_result_view, random_compose, random_error,
    valid_pick, drawn_query, compose_parsed_result, ComposeResult, ComposeView,
};
use crate::error::{invalid_err, ComposeError, ErrorView};
use crate::parse::ParsedView;

verus! {

/// Where the loaded archive came from, and when it was imported (seconds
/// since the Unix epoch).
#[derive(Debug, Clone)]
pub struct ArchiveMeta {
    pub original_name: String,
    pub imported_at: u64,
}

impl Default for ArchiveMeta {
    fn default() -> (m: Self)
        ensures
            m.original_name@ == Seq::<char>::empty(),
            m.imported_at == 0,
    {
        ArchiveMeta { original_name: String::new(), imported_at: 0 }
    }
}

/// The loaded archive and its metadata.
#[derive(Debug)]
pub struct AppState {
    pub catalog: Option<Catalog>,
    pub meta: Option<ArchiveMeta>,
}

impl Default for AppState {
    fn default() -> (s: Self)
        ensures
            s.catalog is None,
            s.meta is None,
    {
        AppState { catalog: None, meta: None }
    }
}

/// What the user interface shows of the state.
#[derive(Debug, Clone)]
pub struct ArchiveStatus {
    pub loaded: bool,
    pub original_name: Option<String>,
    pub imported_at: Option<u64>,
    pub counts: Option<CatalogCounts>,
    pub ranges: Option<CatalogRanges>,
}

/// The status describes the state: when an archive is loaded, its counts,
/// its ranges and the metadata, if any; otherwise nothing.
pub open spec fn describes(st: ArchiveStatus, s: AppState) -> bool {
    match s.catalog {
        Some(c) => {
            &&& st.loaded
            &&& (st.original_name is Some <==> s.meta is Some)
            &&& (st.original_name is Some ==> st.original_name->0@ == s.meta->0.original_name@)
            &&& st.imported_at == match s.meta {
                Some(m) => Some(m.imported_at),
                None => None,
            }
            &&& st.counts == Some(
                CatalogCounts {
                    subjects: c.subjects@.len() as usize,
                    outfits: c.outfits@.len() as usize,
                    poses: c.poses@.len() as usize,
                    actions: c.actions@.len() as usize,
                    scenes: c.scenes@.len() as usize,
                },
            )
            &&& st.ranges == Some(ranges_of(c@))
        },
        None => {
            &&& !st.loaded
            &&& st.original_name is None
            &&& st.imported_at is None
            &&& st.counts is None
            &&& st.ranges is None
        },
    }
}

pub open spec fn no_archive_err() -> ErrorView {
    invalid_err("no_archive"@, "no archive loaded — upload an .xlsx prompt archive first"@)
}

/// What composing a query against the state gives.
pub open spec fn state_compose_result(s: AppState, query: Seq<char>) -> Result<
    ComposeView,
    ErrorView,
> {
    match s.catalog {
        None => Err(no_archive_err()),
        Some(c) => compose_query_result(c@, query),
    }
}

/// The status of the state.
pub fn status_from_state(state: &AppState) -> (st: ArchiveStatus)
    ensures
        describes(st, *state),
{
    match &state.catalog {
        Some(catalog) => {
            let (original_name, imported_at) = match &state.meta {
                Some(m) => (Some(m.original_name.clone()), Some(m.imported_at)),
                None => (None, None),
            };
            ArchiveStatus {
                loaded: true,
                original_name,
                imported_at,
                counts: Some(catalog.counts()),
                ranges: Some(catalog.ranges()),
            }
        },
        None => ArchiveStatus {
            loaded: false,
            original_name: None,
            imported_at: None,
            counts: None,
            ranges: None,
        },
    }
}

fn no_archive() -> (e: ComposeError)
    ensures
        e@ == no_archive_err(),
{
    ComposeError::invalid(
        "no_archive",
        "no archive loaded — upload an .xlsx prompt archive first".to_owned(),
    )
}

/// Composes a query against the loaded archive; `no_archive` when none is
/// loaded.
pub fn compose_with_state(state: &AppState, query: &str) -> (r: Result<
    ComposeResult,
    ComposeError,
>)
    ensures
        compose_result_view(r) == state_compose_result(*state, query@),
{
    match &state.catalog {
        Some(catalog) => compose_from_query(catalog, query),
        None => Err(no_archive()),
    }
}

/// Draws and composes a random query from the loaded archive; `no_archive`
/// when none is loaded.
pub fn random_compose_with_state(state: &AppState) -> (r: Result<ComposeResult, ComposeError>)
    ensures
        match state.catalog {
            None => r is Err && r->Err_0@ == no_archive_err(),
            Some(c) => match r {
                Ok(x) => random_error(c@) is None && exists|p: ParsedView|
                    valid_pick(c@, p) && drawn_query(c@, p) && compose_parsed_result(c@, p) == Ok::<
                        ComposeView,
                        ErrorView,
                    >(x@),
                Err(e) => random_error(c@) == Some(e@),
            },
        },
{
    match &state.catalog {
        Some(catalog) => random_compose(catalog),
        None => Err(no_archive()),
    }
}

/// Makes an imported archive the loaded one.
pub fn install_archive(state: &mut AppState, catalog: Catalog, meta: ArchiveMeta) -> (st:
    ArchiveStatus)
    ensures
        final(state).catalog == Some(catalog),
        final(state).meta == Some(meta),
        describes(st, *final(state)),
{
    state.catalog = Some(catalog);
    state.meta = Some(meta);
    status_from_state(state)
}

/// Forgets the loaded archive and its metadata.
pub fn clear_state(state: &mut AppState) -> (st: ArchiveStatus)
    ensures
        final(state).catalog is None,
        final(state).meta is None,
        describes(st, *final(state)),
{
    state.catalog = None;
    state.meta = None;
    status_from_state(state)
}

/// The state at start-up, from the stored metadata and the result of reading
/// the stored archive (none when no archive file is stored): the archive and
/// its metadata when it reads, else an empty state.
pub fn state_from_stored(
    meta: Option<ArchiveMeta>,
    stored: Option<Result<Catalog, ComposeError>>,
) -> (s: AppState)
    ensures
        match stored {
            Some(Ok(c)) => s.catalog == Some(c) && s.meta == meta,
            _ => s.catalog is None && s.meta is None,
        },
{
    match stored {
        Some(Ok(catalog)) => AppState { catalog: Some(catalog), meta },
        _ => AppState { catalog: None, meta: None },
    }
}

/// Completes the metadata at start-up: metadata kept by the settings store
/// replaces that of the archive directory when an archive is loaded; without
/// either, an archive is described by its file name and import time 0.
pub fn merge_store_meta(state: &mut AppState, store_meta: Option<ArchiveMeta>, file_name: String)
    ensures
        final(state).catalog == old(state).catalog,
        final(state).meta == match store_meta {
            Some(m) => if old(state).catalog is Some {
                Some(m)
            } else {
                old(state).meta
            },
            None => if old(state).catalog is Some && old(state).meta is None {
                Some(ArchiveMeta { original_name: file_name, imported_at: 0 })
            } else {
                old(state).meta
            },
        },
{
    match store_meta {
        Some(meta) => {
            if state.catalog.is_some() {
                state.meta = Some(meta);
            }
        },
        None => {
            if state.catalog.is_some() && state.meta.is_none() {
                state.meta = Some(ArchiveMeta { original_name: file_name, imported_at: 0 });
            }
        },
    }
}

/// Once an archive is installed, composing against the state is composing
/// against that archive, and the status shows it loaded; once cleared,
/// every query is answered `no_archive` and the status shows nothing loaded.
pub proof fn lemma_archive_lifecycle(
    installed: AppState,
    st_installed: ArchiveStatus,
    cleared: AppState,
    st_cleared: ArchiveStatus,
    catalog: Catalog,
    query: Seq<char>,
)
    requires
        installed.catalog == Some(catalog),
        describes(st_installed, installed),
        cleared.catalog is None,
        describes(st_cleared, cleared),
    ensures
        st_installed.loaded,
        state_compose_result(installed, query) == compose_query_result(catalog@, query),
        !st_cleared.loaded,
        state_compose_result(cleared, query) == Err::<ComposeView, ErrorView>(no_archive_err()),
{
}

} // verus!
