//! Voice routes: from the origin of a call and what was dialled to the leg that
//! it is bridged to. Routes are tried top to bottom; the first match wins.
use crate::config;
use crate::config::{EndpointModel, RouteEndpoint, RouteModel, VoiceRouteConfig};
use crate::scan;
use crate::text;
use crate::text::{chars_of, has_prefix, same_chars, same_text, string_of};
use vstd::prelude::*;
use vstd::slice::slice_subrange;

verus! {

/// Where a call comes from.
#[derive(Debug, Clone)]
pub enum CallOrigin {
    SipExtension(String),
    SipTrunk(String),
    BrewPrivate(u32),
    BrewGroup(u32),
}

pub enum OriginModel {
    SipExtension(Seq<char>),
    SipTrunk(Seq<char>),
    BrewPrivate(u32),
    BrewGroup(u32),
}

impl View for CallOrigin {
    type V = OriginModel;

    open spec fn view(&self) -> OriginModel {
        match *self {
            CallOrigin::SipExtension(a) => OriginModel::SipExtension(a@),
            CallOrigin::SipTrunk(t) => OriginModel::SipTrunk(t@),
            CallOrigin::BrewPrivate(i) => OriginModel::BrewPrivate(i),
            CallOrigin::BrewGroup(g) => OriginModel::BrewGroup(g),
        }
    }
}

/// One end of a call.
#[derive(Debug, Clone)]
pub enum LegEndpoint {
    SipExtension { aor: String },
    SipTrunk { trunk: String, number: String },
    BrewPrivate { issi: u32 },
    BrewGroup { gssi: u32 },
}

pub enum LegModel {
    SipExtension { aor: Seq<char> },
    SipTrunk { trunk: Seq<char>, number: Seq<char> },
    BrewPrivate { issi: u32 },
    BrewGroup { gssi: u32 },
}

impl View for LegEndpoint {
    type V = LegModel;

    open spec fn view(&self) -> LegModel {
        match *self {
            LegEndpoint::SipExtension { aor } => LegModel::SipExtension { aor: aor@ },
            LegEndpoint::SipTrunk { trunk, number } => LegModel::SipTrunk {
                trunk: trunk@,
                number: number@,
            },
            LegEndpoint::BrewPrivate { issi } => LegModel::BrewPrivate { issi },
            LegEndpoint::BrewGroup { gssi } => LegModel::BrewGroup { gssi },
        }
    }
}

impl OriginModel {
    /// Whether a call comes from an endpoint. The number of a trunk endpoint
    /// does not matter.
    pub open spec fn is_from(self, ep: EndpointModel) -> bool {
        match (self, ep) {
            (OriginModel::SipExtension(a), EndpointModel::SipExtension { user }) => a == user,
            (OriginModel::SipTrunk(a), EndpointModel::SipTrunk { trunk, .. }) => a == trunk,
            (OriginModel::BrewPrivate(a), EndpointModel::BrewPrivate { issi }) => a == issi,
            (OriginModel::BrewGroup(a), EndpointModel::BrewGroup { gssi }) => a == gssi,
            _ => false,
        }
    }

    /// The origin as an end of the call.
    pub open spec fn leg(self) -> LegModel {
        match self {
            OriginModel::SipExtension(a) => LegModel::SipExtension { aor: a },
            OriginModel::SipTrunk(t) => LegModel::SipTrunk { trunk: t, number: Seq::empty() },
            OriginModel::BrewPrivate(i) => LegModel::BrewPrivate { issi: i },
            OriginModel::BrewGroup(g) => LegModel::BrewGroup { gssi: g },
        }
    }
}

impl CallOrigin {
    pub fn matches(&self, ep: &RouteEndpoint) -> (r: bool)
        ensures
            r == self@.is_from(ep@),
    {
        match (self, ep) {
            (CallOrigin::SipExtension(a), RouteEndpoint::SipExtension { user }) => same_text(
                a.as_str(),
                user.as_str(),
            ),
            (CallOrigin::SipTrunk(a), RouteEndpoint::SipTrunk { trunk, .. }) => same_text(
                a.as_str(),
                trunk.as_str(),
            ),
            (CallOrigin::BrewPrivate(a), RouteEndpoint::BrewPrivate { issi }) => *a == *issi,
            (CallOrigin::BrewGroup(a), RouteEndpoint::BrewGroup { gssi }) => *a == *gssi,
            _ => false,
        }
    }

    pub fn to_leg(&self) -> (r: LegEndpoint)
        ensures
            r@ == self@.leg(),
    {
        match self {
            CallOrigin::SipExtension(a) => LegEndpoint::SipExtension { aor: a.clone() },
            CallOrigin::SipTrunk(t) => LegEndpoint::SipTrunk {
                trunk: t.clone(),
                number: String::new(),
            },
            CallOrigin::BrewPrivate(i) => LegEndpoint::BrewPrivate { issi: *i },
            CallOrigin::BrewGroup(g) => LegEndpoint::BrewGroup { gssi: *g },
        }
    }
}

/// Whether a dialled string matches a pattern: `*` matches anything, a trailing
/// `*` a prefix, anything else itself.
pub open spec fn matches_pattern(pattern: Seq<char>, dialled: Seq<char>) -> bool {
    if pattern.len() > 0 && pattern.last() == '*' {
        text::starts_with(dialled, pattern.drop_last())
    } else {
        pattern == dialled
    }
}

/// Matches a dialled string against a pattern.
pub fn pattern_matches(pattern: &str, dialled: &str) -> (r: bool)
    ensures
        r == matches_pattern(pattern@, dialled@),
{
    let p = chars_of(pattern);
    let d = chars_of(dialled);
    if p.len() > 0 && p[p.len() - 1] == '*' {
        let prefix = slice_subrange(&p, 0, p.len() - 1);
        assert(prefix@ =~= p@.drop_last());
        has_prefix(&d, prefix)
    } else {
        same_chars(&p, &d)
    }
}

/// A dialled string without a prefix, where it has it.
pub open spec fn stripped(dialled: Seq<char>, prefix: Seq<char>) -> Seq<char> {
    if text::starts_with(dialled, prefix) {
        scan::rest(dialled, prefix.len() as int)
    } else {
        dialled
    }
}

/// The leg that an endpoint stands for. A trunk without a number of its own
/// dials what was dialled, less the route's prefix.
pub open spec fn leg_of(ep: EndpointModel, dialled: Seq<char>, strip: Seq<char>) -> LegModel {
    match ep {
        EndpointModel::SipExtension { user } => LegModel::SipExtension { aor: user },
        EndpointModel::SipTrunk { trunk, number } => LegModel::SipTrunk {
            trunk,
            number: if number.len() == 0 {
                stripped(dialled, strip)
            } else {
                number
            },
        },
        EndpointModel::BrewPrivate { issi } => LegModel::BrewPrivate { issi },
        EndpointModel::BrewGroup { gssi } => LegModel::BrewGroup { gssi },
    }
}

fn strip_dialled(dialled: &str, prefix: &str) -> (r: String)
    ensures
        r@ == stripped(dialled@, prefix@),
{
    let d = chars_of(dialled);
    let p = chars_of(prefix);
    if has_prefix(&d, &p) {
        string_of(slice_subrange(&d, p.len(), d.len()))
    } else {
        string_of(&d)
    }
}

/// Turns a configured endpoint into a leg.
pub fn resolve_endpoint(ep: &RouteEndpoint, dialled: &str, strip_prefix: &str) -> (r: LegEndpoint)
    ensures
        r@ == leg_of(ep@, dialled@, strip_prefix@),
{
    match ep {
        RouteEndpoint::SipExtension { user } => LegEndpoint::SipExtension { aor: user.clone() },
        RouteEndpoint::SipTrunk { trunk, number } => LegEndpoint::SipTrunk {
            trunk: trunk.clone(),
            number: if number.as_str().is_empty() {
                strip_dialled(dialled, strip_prefix)
            } else {
                number.clone()
            },
        },
        RouteEndpoint::BrewPrivate { issi } => LegEndpoint::BrewPrivate { issi: *issi },
        RouteEndpoint::BrewGroup { gssi } => LegEndpoint::BrewGroup { gssi: *gssi },
    }
}

/// Whether a route applies to a call.
pub open spec fn applies(route: RouteModel, origin: OriginModel, dialled: Seq<char>) -> bool {
    &&& route.enabled
    &&& matches_pattern(route.match_pattern, dialled)
    &&& route.from is Some ==> origin.is_from(route.from->0)
    &&& route.to is Some
}

/// Position of the first route that applies, or the number of routes.
pub open spec fn first_route(
    routes: Seq<RouteModel>,
    origin: OriginModel,
    dialled: Seq<char>,
    from: int,
) -> int
    decreases routes.len() - from,
{
    if from >= routes.len() {
        routes.len() as int
    } else if applies(routes[from], origin, dialled) {
        from
    } else {
        first_route(routes, origin, dialled, from + 1)
    }
}

/// The leg that a call is bridged to, and the route that says so.
pub open spec fn resolution(
    routes: Seq<RouteModel>,
    origin: OriginModel,
    dialled: Seq<char>,
) -> Option<(LegModel, RouteModel)> {
    let k = first_route(routes, origin, dialled, 0);
    if k < routes.len() {
        Some((leg_of(routes[k].to->0, dialled, routes[k].strip_prefix), routes[k]))
    } else {
        None
    }
}

/// Finds the leg that a call is bridged to.
pub fn resolve<'a>(
    routes: &'a [VoiceRouteConfig],
    origin: &CallOrigin,
    dialled: &str,
) -> (r: Option<(LegEndpoint, &'a VoiceRouteConfig)>)
    ensures
        match r {
            Some((leg, route)) => resolution(config::route_models(routes@), origin@, dialled@) == Some(
                (leg@, route@),
            ),
            None => resolution(config::route_models(routes@), origin@, dialled@) is None,
        },
{
    let mut i: usize = 0;
    while i < routes.len()
        invariant
            i <= routes@.len(),
            first_route(config::route_models(routes@), origin@, dialled@, 0) == first_route(
                config::route_models(routes@),
                origin@,
                dialled@,
                i as int,
            ),
        decreases routes@.len() - i,
    {
        let route = &routes[i];
        assert(config::route_models(routes@)[i as int] == route@);
        if route.enabled && pattern_matches(route.match_pattern.as_str(), dialled) {
            let from_ok = match &route.from {
                Some(from) => origin.matches(from),
                None => true,
            };
            if from_ok {
                match &route.to {
                    Some(to) => {
                        return Some(
                            (resolve_endpoint(to, dialled, route.strip_prefix.as_str()), route),
                        );
                    },
                    None => {},
                }
            }
        }
        i += 1;
    }
    None
}

/// The first applicable route decides: what a call resolves to comes from a
/// route that applies, and no route before it applies.
pub proof fn first_matching_route_decides(
    routes: Seq<RouteModel>,
    origin: OriginModel,
    dialled: Seq<char>,
    from: int,
)
    requires
        0 <= from <= routes.len(),
    ensures
        ({
            let k = first_route(routes, origin, dialled, from);
            &&& from <= k <= routes.len()
            &&& k < routes.len() ==> applies(routes[k], origin, dialled)
            &&& forall|i: int|
                from <= i < k ==> !applies(#[trigger] routes[i], origin, dialled)
        }),
    decreases routes.len() - from,
{
    if from < routes.len() && !applies(routes[from], origin, dialled) {
        first_matching_route_decides(routes, origin, dialled, from + 1);
    }
}

/// A call resolves exactly when some route applies to it.
pub proof fn resolves_iff_some_route_applies(
    routes: Seq<RouteModel>,
    origin: OriginModel,
    dialled: Seq<char>,
)
    ensures
        resolution(routes, origin, dialled) is Some <==> exists|i: int|
            0 <= i < routes.len() && applies(#[trigger] routes[i], origin, dialled),
{
    first_matching_route_decides(routes, origin, dialled, 0);
    let k = first_route(routes, origin, dialled, 0);
    if k < routes.len() {
        assert(applies(routes[k], origin, dialled));
    }
}

/// Routes after the one that decides do not matter.
pub proof fn later_routes_do_not_matter(
    routes: Seq<RouteModel>,
    more: Seq<RouteModel>,
    origin: OriginModel,
    dialled: Seq<char>,
)
    requires
        resolution(routes, origin, dialled) is Some,
    ensures
        resolution(routes + more, origin, dialled) == resolution(routes, origin, dialled),
{
    first_matching_route_decides(routes, origin, dialled, 0);
    first_matching_route_decides(routes + more, origin, dialled, 0);
    let k = first_route(routes, origin, dialled, 0);
    let j = first_route(routes + more, origin, dialled, 0);
    assert((routes + more)[k] == routes[k]);
    if j < k {
        assert((routes + more)[j] == routes[j]);
    }
    if k < j {
        assert(!applies((routes + more)[k], origin, dialled));
    }
}

/// The star pattern matches anything.
pub proof fn star_matches_anything(dialled: Seq<char>)
    ensures
        matches_pattern("*"@, dialled),
{
    reveal_strlit("*");
    assert("*"@.drop_last() =~= Seq::<char>::empty());
    assert(dialled.subrange(0, 0) =~= Seq::<char>::empty());
}

} // verus!
