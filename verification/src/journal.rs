//! The journal path resolver: a calendar date plus a set of requested
//! period granularities yields the file paths that hold journal content for
//! that date, each obtained by rendering the period's path template with the
//! date and joining it onto the root directory.
use vstd::prelude::*;

use core::fmt::Write;

use crate::config::Config;
use crate::config::JournalPath;
use crate::date::Date;
use crate::text::join_path;

verus! {

/// A journal time granularity.
#[derive(Clone, Copy, Debug, PartialEq, Eq, Structural)]
pub enum Period {
    Daily,
    Weekly,
    Monthly,
    Yearly,
}

/// Resolving fails only on a template the date formatter rejects.
#[derive(Clone, Copy, Debug, PartialEq, Eq, Structural)]
pub enum JournalError {
    InvalidTemplate,
}

/// What chrono renders a date to through a strftime template: a function of
/// the date and the template alone; `None` stands for a malformed template,
/// which the formatter rejects.
pub uninterp spec fn strftime(y: int, m: int, d: int, fmt: Seq<char>) -> Option<Seq<char>>;

/// A template whose `%` directives are all among `%Y`, `%m`, `%d` and `%U`:
/// one the date formatter documents as well-formed, so rendering succeeds.
pub open spec fn simple_template(fmt: Seq<char>) -> bool {
    forall|i: int|
        0 <= i < fmt.len() && #[trigger] fmt[i] == '%' ==> i + 1 < fmt.len() && (fmt[i + 1] == 'Y'
            || fmt[i + 1] == 'm' || fmt[i + 1] == 'd' || fmt[i + 1] == 'U')
}

/// Relies on chrono::NaiveDate::from_ymd_opt and DelayedFormat::write_to:
/// rendering a valid date through a template writes a string that depends on
/// the date and the template alone; it returns an error exactly on a
/// malformed template (an `Item::Error` in the parsed template), and the
/// directives `%Y`, `%m`, `%d` and `%U` are documented date directives that
/// always render.
#[verifier::external_body]
fn render_date(date: Date, fmt: &str) -> (r: Option<String>)
    requires
        date.wf(),
    ensures
        (match (r, strftime(date.year as int, date.month as int, date.day as int, fmt@)) {
            (Some(s), Some(t)) => s@ == t,
            (None, None) => true,
            _ => false,
        }),
        simple_template(fmt@) ==> r is Some,
{
    let d = chrono::NaiveDate::from_ymd_opt(date.year, date.month as u32, date.day as u32)?;
    let mut s = String::new();
    match write!(&mut s, "{}", d.format(fmt)) {
        Ok(()) => Some(s),
        Err(_) => None,
    }
}

/// The fixed filename fragment the date filter looks for, per period:
/// `YYYY-MM-DD`, `YYYY-wWW`, `YYYY-MM` or `YYYY`.
pub open spec fn filter_pattern(p: Period) -> Seq<char> {
    match p {
        Period::Daily => "%Y-%m-%d"@,
        Period::Weekly => "%Y-w%U"@,
        Period::Monthly => "%Y-%m"@,
        Period::Yearly => "%Y"@,
    }
}

/// The rendered date pattern the filter matches against, per period.
pub open spec fn pattern_of(date: Date, p: Period) -> Option<Seq<char>> {
    strftime(date.year as int, date.month as int, date.day as int, filter_pattern(p))
}

/// The four fixed filter patterns are well-formed templates.
pub proof fn lemma_filter_patterns_simple()
    ensures
        simple_template(filter_pattern(Period::Daily)),
        simple_template(filter_pattern(Period::Weekly)),
        simple_template(filter_pattern(Period::Monthly)),
        simple_template(filter_pattern(Period::Yearly)),
{
    reveal_strlit("%Y-%m-%d");
    reveal_strlit("%Y-w%U");
    reveal_strlit("%Y-%m");
    reveal_strlit("%Y");
}

/// Renders the date pattern for one period; the fixed patterns always
/// render.
pub fn render_pattern(date: Date, p: Period) -> (r: String)
    requires
        date.wf(),
    ensures
        Some(r@) == pattern_of(date, p),
{
    proof {
        lemma_filter_patterns_simple();
    }
    let pat: &str = match p {
        Period::Daily => "%Y-%m-%d",
        Period::Weekly => "%Y-w%U",
        Period::Monthly => "%Y-%m",
        Period::Yearly => "%Y",
    };
    match render_date(date, pat) {
        Some(s) => s,
        None => {
            proof {
                assert(false);
            }
            vstd::pervasive::unreached()
        },
    }
}

/// The periods a request selects, as a vector: all four when the request
/// is empty, the request itself otherwise.
pub(crate) fn selected_vec(periods: &Vec<Period>) -> (r: Vec<Period>)
    ensures
        r@ == selected_periods(periods@),
{
    let mut sel: Vec<Period> = Vec::new();
    if periods.len() == 0 {
        sel.push(Period::Daily);
        sel.push(Period::Weekly);
        sel.push(Period::Monthly);
        sel.push(Period::Yearly);
        proof {
            assert(sel@ =~= all_periods());
        }
    } else {
        let mut i: usize = 0;
        while i < periods.len()
            invariant
                i <= periods.len(),
                sel@ == periods@.subrange(0, i as int),
            decreases periods.len() - i,
        {
            sel.push(periods[i]);
            proof {
                assert(sel@ =~= periods@.subrange(0, i + 1));
            }
            i = i + 1;
        }
        proof {
            assert(sel@ =~= periods@);
        }
    }
    sel
}

/// The four periods in their canonical order.
pub open spec fn all_periods() -> Seq<Period> {
    seq![Period::Daily, Period::Weekly, Period::Monthly, Period::Yearly]
}

/// An empty request selects all four periods, in canonical order; a
/// non-empty request is used as given.
pub open spec fn selected_periods(req: Seq<Period>) -> Seq<Period> {
    if req.len() == 0 {
        all_periods()
    } else {
        req
    }
}

/// The template configured for a period.
pub open spec fn template_of(t: JournalPath, p: Period) -> Seq<char> {
    match p {
        Period::Daily => t.daily@,
        Period::Weekly => t.weekly@,
        Period::Monthly => t.monthly@,
        Period::Yearly => t.yearly@,
    }
}

/// The path fragment a period resolves to for a date, before the root is
/// joined on; `None` on a malformed template.
pub open spec fn fragment_of(date: Date, t: JournalPath, p: Period) -> Option<Seq<char>> {
    strftime(date.year as int, date.month as int, date.day as int, template_of(t, p))
}

/// Every selected period's template renders for this date.
pub open spec fn resolve_ok(date: Date, t: JournalPath, req: Seq<Period>) -> bool {
    forall|i: int|
        0 <= i < selected_periods(req).len() ==> #[trigger] fragment_of(
            date,
            t,
            selected_periods(req)[i],
        ) is Some
}

/// The resolved paths, one per selected period in selection order: the root
/// joined with the period's rendered fragment.
pub open spec fn resolved_paths(date: Date, t: JournalPath, req: Seq<Period>, root: Seq<char>) -> Seq<
    Seq<char>,
> {
    selected_periods(req).map(|i: int, p: Period| join_path(root, fragment_of(date, t, p)->0))
}

/// The configured template for a period.
fn template_str<'a>(t: &'a JournalPath, p: Period) -> (r: &'a String)
    ensures
        r@ == template_of(*t, p),
{
    match p {
        Period::Daily => &t.daily,
        Period::Weekly => &t.weekly,
        Period::Monthly => &t.monthly,
        Period::Yearly => &t.yearly,
    }
}

/// Resolves the journal file paths for `date`: one path per requested
/// period, in request order, or all four in canonical order when no period
/// is requested. Each path is the root directory joined with the period's
/// template rendered for the date. Fails exactly when some selected
/// period's template is malformed.
pub fn paths(date: Date, periods: &Vec<Period>, root_dir: &str, config: &Config) -> (r: Result<
    Vec<String>,
    JournalError,
>)
    requires
        date.wf(),
    ensures
        match r {
            Ok(v) => resolve_ok(date, config.journal.path, periods@) && v.deep_view()
                == resolved_paths(date, config.journal.path, periods@, root_dir@),
            Err(e) => e == JournalError::InvalidTemplate && !resolve_ok(
                date,
                config.journal.path,
                periods@,
            ),
        },
{
    let tpl = &config.journal.path;
    let sel = selected_vec(periods);
    let ghost spec_sel = selected_periods(periods@);
    let mut out: Vec<String> = Vec::new();
    let mut i: usize = 0;
    while i < sel.len()
        invariant
            date.wf(),
            sel@ == spec_sel,
            spec_sel == selected_periods(periods@),
            i <= sel.len(),
            forall|k: int|
                0 <= k < i ==> #[trigger] fragment_of(date, config.journal.path, spec_sel[k])
                    is Some,
            tpl == &config.journal.path,
            out.deep_view() =~= resolved_paths(
                date,
                config.journal.path,
                periods@,
                root_dir@,
            ).subrange(0, i as int),
        decreases sel.len() - i,
    {
        let p = sel[i];
        let frag = match render_date(date, template_str(tpl, p).as_str()) {
            Some(f) => f,
            None => {
                proof {
                    assert(fragment_of(date, config.journal.path, spec_sel[i as int]) is None);
                }
                return Err(JournalError::InvalidTemplate);
            },
        };
        let joined = crate::text::path_join(root_dir, frag.as_str());
        let ghost pre_deep = out.deep_view();
        let ghost joined_view = joined@;
        out.push(joined);
        proof {
            let full = resolved_paths(date, config.journal.path, periods@, root_dir@);
            assert(p == spec_sel[i as int]);
            assert(frag@ == fragment_of(date, config.journal.path, spec_sel[i as int])->0);
            assert(full[i as int] == join_path(
                root_dir@,
                fragment_of(date, config.journal.path, spec_sel[i as int])->0,
            ));
            assert(pre_deep == full.subrange(0, i as int));
            assert(pre_deep.len() == i as int);
            assert(out.deep_view().len() == pre_deep.len() + 1);
            assert(out.deep_view().len() == i + 1);
            assert forall|k: int| 0 <= k < i + 1 implies out.deep_view()[k] == full.subrange(
                0,
                i + 1,
            )[k] by {
                if k < i {
                    assert(out.deep_view()[k] == pre_deep[k]);
                    assert(pre_deep[k] == full.subrange(0, i as int)[k]);
                } else {
                    assert(out.deep_view()[k] == joined_view);
                }
            }
            assert(out.deep_view() =~= full.subrange(0, i + 1));
        }
        i = i + 1;
    }
    proof {
        let full = resolved_paths(date, config.journal.path, periods@, root_dir@);
        assert(full.subrange(0, full.len() as int) =~= full);
    }
    Ok(out)
}

/// An empty period request resolves to exactly what a request for all four
/// periods in canonical order resolves to.
pub proof fn lemma_period_defaulting(date: Date, t: JournalPath, root: Seq<char>)
    ensures
        resolved_paths(date, t, Seq::<Period>::empty(), root) == resolved_paths(
            date,
            t,
            all_periods(),
            root,
        ),
        resolve_ok(date, t, Seq::<Period>::empty()) == resolve_ok(date, t, all_periods()),
{
    assert(selected_periods(Seq::<Period>::empty()) == all_periods());
    assert(selected_periods(all_periods()) == all_periods());
}

} // verus!
