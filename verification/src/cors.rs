//! Which origins may make cross-origin requests.

use vstd::prelude::*;

use crate::reply;
use crate::reply::accepts_value;
use crate::text;
use crate::text::{chars_of, split_every, text_of, trim, Trim};

verus! {

/// Which origins may make cross-origin requests.
#[derive(Debug)]
pub enum CorsPolicy {
    /// No origin.
    Closed,
    /// Any origin, with any method and any header.
    Permissive,
    /// These origins, with any method and any header.
    Origins(Vec<String>),
}

/// The model of a [`CorsPolicy`].
pub ghost enum PolicyView {
    Closed,
    Permissive,
    Origins(Seq<Seq<char>>),
}

impl View for CorsPolicy {
    type V = PolicyView;

    open spec fn view(&self) -> PolicyView {
        match self {
            CorsPolicy::Closed => PolicyView::Closed,
            CorsPolicy::Permissive => PolicyView::Permissive,
            CorsPolicy::Origins(list) => PolicyView::Origins(text::string_views(list@)),
        }
    }
}

/// The origins among the pieces of a list: those that can be header values, without white space
/// around them.
pub open spec fn origins_in(pieces: Seq<Seq<char>>) -> Seq<Seq<char>>
    decreases pieces.len(),
{
    if pieces.len() == 0 {
        seq![]
    } else {
        let before = origins_in(pieces.drop_last());
        let origin = text::trimmed(pieces.last(), Trim::White);
        if reply::is_header_value(origin) {
            before.push(origin)
        } else {
            before
        }
    }
}

/// The policy that a setting asks for: none, all origins for a star, or the origins of a
/// comma-separated list.
pub open spec fn policy_of(origins: Option<Seq<char>>) -> PolicyView {
    match origins {
        None => PolicyView::Closed,
        Some(list) => if list == "*"@ {
            PolicyView::Permissive
        } else {
            PolicyView::Origins(origins_in(text::split_all(list, ',')))
        },
    }
}

/// The policy that a setting asks for.
pub fn cors_policy(origins: Option<&str>) -> (policy: CorsPolicy)
    ensures
        policy@ == policy_of(
            match origins {
                Some(list) => Some(list@),
                None => None,
            },
        ),
{
    let list = match origins {
        None => return CorsPolicy::Closed,
        Some(list) => list,
    };
    if *list == *"*" {
        return CorsPolicy::Permissive;
    }
    let chars = chars_of(list);
    let pieces = split_every(&chars, ',');
    let ghost views = text::slice_views(pieces@);
    let mut kept: Vec<String> = Vec::new();
    let mut i: usize = 0;
    proof {
        assert(views.take(0) =~= seq![]);
        assert(text::string_views(kept@) =~= origins_in(views.take(0)));
    }
    while i < pieces.len()
        invariant
            i <= pieces@.len(),
            views == text::slice_views(pieces@),
            text::string_views(kept@) == origins_in(views.take(i as int)),
        decreases pieces@.len() - i,
    {
        let ghost prior = kept@;
        let origin = text_of(trim(pieces[i], Trim::White));
        proof {
            assert(views.take(i + 1).drop_last() =~= views.take(i as int));
            assert(views.take(i + 1).last() == pieces@[i as int]@);
        }
        if accepts_value(origin.as_str()) {
            kept.push(origin);
            assert(text::string_views(kept@) =~= text::string_views(prior).push(origin@));
        }
        i += 1;
    }
    assert(views.take(pieces@.len() as int) =~= views);
    CorsPolicy::Origins(kept)
}

/// Every origin of a list can be sent as a header value.
pub proof fn law_origins_are_header_values(pieces: Seq<Seq<char>>)
    ensures
        forall|i: int|
            0 <= i < origins_in(pieces).len() ==> reply::is_header_value(
                #[trigger] origins_in(pieces)[i],
            ),
    decreases pieces.len(),
{
    if pieces.len() > 0 {
        law_origins_are_header_values(pieces.drop_last());
        let before = origins_in(pieces.drop_last());
        assert forall|i: int| 0 <= i < origins_in(pieces).len() implies reply::is_header_value(
            #[trigger] origins_in(pieces)[i],
        ) by {
            if i < before.len() {
                assert(origins_in(pieces)[i] == before[i]);
            }
        }
    }
}

/// Without a setting no origin may make requests, and a star lets all. A list lets the origins in
/// it, all of them in their order, where each can be a header value and has no comma in it; white
/// space around them does not count.
pub proof fn law_listed_origins(
    origins: Seq<Seq<char>>,
    before: Seq<Seq<char>>,
    behind: Seq<Seq<char>>,
)
    requires
        origins.len() > 0,
        before.len() == origins.len(),
        behind.len() == origins.len(),
        forall|i: int|
            0 <= i < origins.len() ==> {
                &&& !(#[trigger] origins[i]).contains(',')
                &&& text::has_clean_ends(origins[i], Trim::White)
                &&& reply::is_header_value(origins[i])
                &&& text::is_all_taken(before[i], Trim::White)
                &&& text::is_all_taken(behind[i], Trim::White)
            },
        text::joined(
            Seq::new(origins.len(), |i: int| before[i] + origins[i] + behind[i]),
            seq![','],
        ) != "*"@,
    ensures
        policy_of(
            Some(
                text::joined(
                    Seq::new(origins.len(), |i: int| before[i] + origins[i] + behind[i]),
                    seq![','],
                ),
            ),
        ) == PolicyView::Origins(origins),
        policy_of(None) == PolicyView::Closed,
        policy_of(Some("*"@)) == PolicyView::Permissive,
{
    let pieces = Seq::new(origins.len(), |i: int| before[i] + origins[i] + behind[i]);
    assert forall|i: int| 0 <= i < pieces.len() implies !(#[trigger] pieces[i]).contains(',') by {
        assert(!origins[i].contains(','));
        if pieces[i].contains(',') {
            let k = choose|k: int| 0 <= k < pieces[i].len() && pieces[i][k] == ',';
            if k < before[i].len() {
                assert(before[i][k] == ',');
            } else if k < before[i].len() + origins[i].len() {
                assert(origins[i][k - before[i].len()] == ',');
            } else {
                assert(behind[i][k - before[i].len() - origins[i].len()] == ',');
            }
        }
    }
    text::law_split_undoes_join(pieces, ',');
    lemma_origins_in(origins, before, behind, origins.len());
    assert(pieces.take(pieces.len() as int) =~= pieces);
    assert(origins.take(origins.len() as int) =~= origins);
}

proof fn lemma_origins_in(
    origins: Seq<Seq<char>>,
    before: Seq<Seq<char>>,
    behind: Seq<Seq<char>>,
    n: nat,
)
    requires
        n <= origins.len(),
        before.len() == origins.len(),
        behind.len() == origins.len(),
        forall|i: int|
            0 <= i < origins.len() ==> {
                &&& text::has_clean_ends(#[trigger] origins[i], Trim::White)
                &&& reply::is_header_value(origins[i])
                &&& text::is_all_taken(before[i], Trim::White)
                &&& text::is_all_taken(behind[i], Trim::White)
            },
    ensures
        origins_in(
            Seq::new(origins.len(), |i: int| before[i] + origins[i] + behind[i]).take(n as int),
        ) == origins.take(n as int),
    decreases n,
{
    let pieces = Seq::new(origins.len(), |i: int| before[i] + origins[i] + behind[i]);
    if n > 0 {
        lemma_origins_in(origins, before, behind, (n - 1) as nat);
        let k = n - 1;
        assert(pieces.take(n as int).drop_last() =~= pieces.take(k));
        assert(pieces.take(n as int).last() == before[k] + origins[k] + behind[k]);
        assert(text::has_clean_ends(origins[k], Trim::White));
        text::law_trim(before[k], origins[k], behind[k], Trim::White);
        assert(origins.take(n as int) =~= origins.take(k).push(origins[k]));
    } else {
        assert(origins.take(0) =~= seq![]);
    }
}

/// What a policy holds is what its list holds.
pub proof fn law_policy_view(policy: CorsPolicy)
    ensures
        match policy {
            CorsPolicy::Closed => policy@ == PolicyView::Closed,
            CorsPolicy::Permissive => policy@ == PolicyView::Permissive,
            CorsPolicy::Origins(list) => policy@ == PolicyView::Origins(text::string_views(list@)),
        },
{
}

/// An origin that cannot be a header value is left out, and changes nothing for the others.
pub proof fn law_bad_origins_are_left_out(pieces: Seq<Seq<char>>, piece: Seq<char>)
    requires
        text::has_clean_ends(piece, Trim::White),
    ensures
        !reply::is_header_value(piece) ==> origins_in(pieces.push(piece)) == origins_in(pieces),
        reply::is_header_value(piece) ==> origins_in(pieces.push(piece)) == origins_in(
            pieces,
        ).push(piece),
{
    let none = Seq::<char>::empty();
    assert(none + piece + none =~= piece);
    text::law_trim(none, piece, none, Trim::White);
    assert(pieces.push(piece).drop_last() =~= pieces);
}

} // verus!
