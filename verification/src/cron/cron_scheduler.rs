//! The scheduler's decisions: what a cron job looks like when registered,
//! after a run, and when enabled or disabled.

use vstd::prelude::*;
use crate::cron::clock::{
    earlier, effective_zone, rfc3339_text, to_rfc3339, utc_zone, zone_fields, UtcTime, MAX_SECS,
};
use crate::cron::cron_job::CronJobMeta;
use crate::cron::gaps::{clock_ok, no_run_in};
use crate::cron::cron_parser::{
    cron_parse_spec, fields_match, next_execution_spec, normalize_spec, CronError, CronParser,
    SEARCH_SPAN_SECS,
};

verus! {

/// Why a cron job could not be registered.
#[derive(Debug, Clone, PartialEq, Eq)]
pub enum CronScheduleError {
    /// The job says it is disabled.
    Disabled,
    /// Its next run could not be found.
    Cron(CronError),
}

/// A cron job to store, and the instant of its next run (the score under
/// which it is scheduled).
pub struct CronPlan {
    pub meta: CronJobMeta,
    pub next: UtcTime,
}

/// An instant from which the next run of a job may be searched.
pub open spec fn searchable(now: UtcTime) -> bool {
    now.wf() && now.secs + 1 + SEARCH_SPAN_SECS <= MAX_SECS
}

/// `next` is the next run after `now` of the job's expression in its zone
/// (so a run at all, later than `now`, with no run between the two on the
/// zone's wall clock from the second after `now` up to `next`, and in UTC
/// the earliest second after `now` at which the expression runs), and the
/// stored `next_run` is its RFC 3339 text.
pub open spec fn plans_next(meta: CronJobMeta, next: UtcTime, now: UtcTime) -> bool {
    &&& next.wf()
    &&& next_execution_spec(meta.cron_expression@, now, meta.timezone@) == Some(
        Ok::<UtcTime, CronError>(next),
    )
    &&& meta.next_run@ == rfc3339_text(next.secs as int, next.nanos as int)
    &&& cron_parse_spec(normalize_spec(meta.cron_expression@)) matches Some(c)
    &&& fields_match(c, zone_fields(effective_zone(meta.timezone@), next.secs as int))
    &&& next.after(now)
    &&& forall|s: int|
        now.secs < s < next.secs && clock_ok(#[trigger] zone_fields(effective_zone(meta.timezone@), s))
            && !earlier(
            zone_fields(effective_zone(meta.timezone@), s),
            zone_fields(effective_zone(meta.timezone@), now.secs + 1),
        ) && earlier(
            zone_fields(effective_zone(meta.timezone@), s),
            zone_fields(effective_zone(meta.timezone@), next.secs as int),
        ) ==> !fields_match(c, zone_fields(effective_zone(meta.timezone@), s))
    &&& effective_zone(meta.timezone@) == utc_zone() ==> no_run_in(
        c,
        now.secs + 1,
        next.secs as int,
    )
}

/// The two records agree on everything but the run times and the flag.
pub open spec fn same_job(a: CronJobMeta, b: CronJobMeta) -> bool {
    &&& a.id@ == b.id@
    &&& a.name@ == b.name@
    &&& a.queue@ == b.queue@
    &&& a.cron_expression@ == b.cron_expression@
    &&& a.timezone@ == b.timezone@
    &&& a.created_at@ == b.created_at@
    &&& a.payload@ == b.payload@
}

/// Runs cron jobs.
pub struct CronScheduler;

impl CronScheduler {
    /// The record of a job being registered at `now`: refused when the job
    /// is disabled; otherwise enabled, never run, created at `now`, and due
    /// at the next run of its expression after `now`.
    pub fn new_meta(
        id: String,
        name: String,
        queue: String,
        cron_expression: String,
        timezone: String,
        enabled: bool,
        payload: String,
        now: UtcTime,
    ) -> (r: Result<CronPlan, CronScheduleError>)
        requires
            searchable(now),
        ensures
            !enabled <==> r == Err::<CronPlan, CronScheduleError>(CronScheduleError::Disabled),
            enabled ==> match next_execution_spec(cron_expression@, now, timezone@) {
                None => r matches Err(CronScheduleError::Cron(CronError::InvalidExpression(x)))
                    && x@ == cron_expression@,
                Some(Ok(_)) => r is Ok,
                Some(Err(e)) => r == Err::<CronPlan, CronScheduleError>(CronScheduleError::Cron(e)),
            },
            r matches Ok(p) ==> {
                &&& p.meta.id@ == id@
                &&& p.meta.name@ == name@
                &&& p.meta.queue@ == queue@
                &&& p.meta.cron_expression@ == cron_expression@
                &&& p.meta.timezone@ == timezone@
                &&& p.meta.payload@ == payload@
                &&& p.meta.enabled
                &&& p.meta.last_run is None
                &&& p.meta.created_at@ == rfc3339_text(now.secs as int, now.nanos as int)
                &&& plans_next(p.meta, p.next, now)
            },
    {
        if !enabled {
            return Err(CronScheduleError::Disabled);
        }
        let next = match CronParser::next_execution(cron_expression.as_str(), now, timezone.as_str()) {
            Ok(t) => t,
            Err(e) => return Err(CronScheduleError::Cron(e)),
        };
        let next_run = to_rfc3339(next);
        let created_at = to_rfc3339(now);
        let meta = CronJobMeta {
            id,
            name,
            queue,
            cron_expression,
            timezone,
            enabled,
            last_run: None,
            next_run,
            created_at,
            payload,
        };
        Ok(CronPlan { meta, next })
    }

    /// What a due job does at `now`: nothing when disabled (`None`);
    /// otherwise it runs, and its record then carries `now` as the last run
    /// and the next run of its expression after `now`.
    pub fn plan_run(meta: CronJobMeta, now: UtcTime) -> (r: Option<Result<CronPlan, CronError>>)
        requires
            searchable(now),
        ensures
            !meta.enabled <==> r is None,
            meta.enabled ==> match next_execution_spec(meta.cron_expression@, now, meta.timezone@) {
                None => r matches Some(Err(CronError::InvalidExpression(x))) && x@
                    == meta.cron_expression@,
                Some(Ok(_)) => r matches Some(Ok(_)),
                Some(Err(e)) => r == Some(Err::<CronPlan, CronError>(e)),
            },
            r matches Some(Ok(p)) ==> {
                &&& same_job(p.meta, meta)
                &&& p.meta.enabled
                &&& (p.meta.last_run matches Some(l) && l@ == rfc3339_text(
                    now.secs as int,
                    now.nanos as int,
                ))
                &&& plans_next(p.meta, p.next, now)
            },
    {
        if !meta.enabled {
            return None;
        }
        let mut meta = meta;
        meta.last_run = Some(to_rfc3339(now));
        let next = match CronParser::next_execution(
            meta.cron_expression.as_str(),
            now,
            meta.timezone.as_str(),
        ) {
            Ok(t) => t,
            Err(e) => return Some(Err(e)),
        };
        meta.next_run = to_rfc3339(next);
        Some(Ok(CronPlan { meta, next }))
    }

    /// The record of a job switched on or off at `now`, and the instant to
    /// schedule it at (`None`: take it off the schedule). Switching on
    /// moves its next run to the next run after `now`.
    pub fn plan_toggle(meta: CronJobMeta, enabled: bool, now: UtcTime) -> (r: Result<
        (CronJobMeta, Option<UtcTime>),
        CronError,
    >)
        requires
            searchable(now),
        ensures
            !enabled ==> (r matches Ok((m, next)) && next is None && same_job(m, meta) && !m.enabled
                && m.next_run@ == meta.next_run@ && m.last_run == meta.last_run),
            enabled ==> match next_execution_spec(meta.cron_expression@, now, meta.timezone@) {
                None => r matches Err(CronError::InvalidExpression(x)) && x@ == meta.cron_expression@,
                Some(Ok(_)) => r is Ok,
                Some(Err(e)) => r == Err::<(CronJobMeta, Option<UtcTime>), CronError>(e),
            },
            enabled ==> (r matches Ok((m, next)) ==> {
                &&& same_job(m, meta)
                &&& m.enabled
                &&& m.last_run == meta.last_run
                &&& (next matches Some(t) && plans_next(m, t, now))
            }),
    {
        let mut meta = meta;
        meta.enabled = enabled;
        if enabled {
            let next = CronParser::next_execution(
                meta.cron_expression.as_str(),
                now,
                meta.timezone.as_str(),
            )?;
            meta.next_run = to_rfc3339(next);
            Ok((meta, Some(next)))
        } else {
            Ok((meta, None))
        }
    }
}

} // verus!
