//! The resolved sync configuration: every recognized option and its
//! default, fixed once at startup instead of looked up ad hoc.

use vstd::prelude::*;

verus! {

/// The knobs the builder and the fetch scheduler run under.
pub struct SyncConfig {
    /// Chunk size for digesting, in bytes.
    pub part_size: u64,
    /// The worker-pool bound: the only admission-control knob.
    pub max_tasks: u64,
    /// Whether the builder reports duplicate-content groups.
    pub show_duplicates: bool,
}

impl SyncConfig {
    pub open spec fn wf(self) -> bool {
        self.part_size >= 1 && self.max_tasks >= 1
    }

    /// Resolve the caller's options against the defaults: 100 KiB chunks
    /// and two digest tasks per processor.
    pub fn resolve(
        part_size: Option<u64>,
        max_tasks: Option<u64>,
        show_duplicates: Option<bool>,
        cpus: u64,
    ) -> (res: SyncConfig)
        requires
            1 <= cpus <= u64::MAX / 2,
        ensures
            res.wf(),
            res.part_size == (if part_size is Some && part_size.unwrap() >= 1 {
                part_size.unwrap()
            } else {
                102400u64
            }),
            res.max_tasks == (if max_tasks is Some && max_tasks.unwrap() >= 1 {
                max_tasks.unwrap()
            } else {
                (2 * cpus) as u64
            }),
            res.show_duplicates == (if show_duplicates is Some {
                show_duplicates.unwrap()
            } else {
                false
            }),
    {
        let part_size = match part_size {
            Some(p) if p >= 1 => p,
            _ => 102400,
        };
        let max_tasks = match max_tasks {
            Some(t) if t >= 1 => t,
            _ => 2 * cpus,
        };
        let show_duplicates = match show_duplicates {
            Some(s) => s,
            None => false,
        };
        SyncConfig { part_size, max_tasks, show_duplicates }
    }

    /// Whether a listener endpoint is active and which port it binds,
    /// resolved from the caller's options: serving is skipped (and
    /// reported) when inactive.
    pub fn resolve_endpoint(active: Option<bool>, port: Option<u16>, secured: bool) -> (res: (
        bool,
        u16,
    ))
        ensures
            res.0 == (if active is Some {
                active.unwrap()
            } else {
                true
            }),
            res.1 == (if port is Some {
                port.unwrap()
            } else {
                if secured {
                    8443u16
                } else {
                    8080u16
                }
            }),
    {
        let active = match active {
            Some(a) => a,
            None => true,
        };
        let port = match port {
            Some(p) => p,
            None => if secured {
                8443
            } else {
                8080
            },
        };
        (active, port)
    }

    /// The download side overlaps network wait: four transfers per
    /// processor by default.
    pub fn download_defaults(cpus: u64) -> (res: SyncConfig)
        requires
            1 <= cpus <= u64::MAX / 4,
        ensures
            res.wf(),
            res.part_size == 102400u64,
            res.max_tasks == 4 * cpus,
            !res.show_duplicates,
    {
        SyncConfig { part_size: 102400, max_tasks: 4 * cpus, show_duplicates: false }
    }
}

} // verus!
