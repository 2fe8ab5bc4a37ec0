//! Peer addresses and their canonical `host:port` form.

use vstd::prelude::*;

verus! {

/// The network location that a URL parser finds in `address`: the text
/// between a `//` at the start, or behind the scheme where there is one,
/// and the next `/`, `?` or `#`. It is empty where the address has no such
/// part.
pub uninterp spec fn url_netloc(address: Seq<char>) -> Seq<char>;

/// Calls `urlparse::urlparse` and takes the `netloc` field of the result.
///
/// Trusted: the text returned is the network location of `address`, which
/// depends on the characters of `address` and on nothing else.
#[verifier::external_body]
pub(crate) fn parse_netloc(address: &str) -> (netloc: String)
    ensures
        netloc@ == url_netloc(address@),
{
    urlparse::urlparse(address).netloc
}

/// `text` holds `//` at `i`.
pub open spec fn double_slash_at(text: Seq<char>, i: int) -> bool {
    0 <= i && i + 1 < text.len() && text[i] == '/' && text[i + 1] == '/'
}

/// `text` holds `//` somewhere.
pub open spec fn has_double_slash(text: Seq<char>) -> bool {
    exists|i: int| double_slash_at(text, i)
}

/// Picks the canonical form of an address from the two readings of it:
/// `direct` is the network location of the address as written, `prefixed`
/// that of the address with `//` in front. The first reading wins where it
/// is not empty. The second counts only for a `bare` address, one that
/// holds no `//` of its own: a URL whose network location is empty is not
/// read again.
pub open spec fn first_netloc(
    direct: Seq<char>,
    bare: bool,
    prefixed: Seq<char>,
) -> Option<Seq<char>> {
    if direct.len() > 0 {
        Some(direct)
    } else if bare && prefixed.len() > 0 {
        Some(prefixed)
    } else {
        None
    }
}

/// The canonical form of a peer address, if it has one.
///
/// A full URL gives its network location. An address that holds no `//`,
/// such as a bare `host:port`, is read as a URL without a scheme, with
/// `//` in front. Every other address is malformed: one that has no
/// network location either way, and one that holds `//` with nothing
/// behind it, such as `http://`.
pub open spec fn canonical_peer(address: Seq<char>) -> Option<Seq<char>> {
    first_netloc(url_netloc(address), !has_double_slash(address), url_netloc("//"@ + address))
}

/// Tests whether `text` holds `//` somewhere.
pub fn holds_double_slash(text: &str) -> (found: bool)
    ensures
        found == has_double_slash(text@),
{
    let n = text.unicode_len();
    let mut i: usize = 1;
    while i < n
        invariant
            1 <= i,
            n == text@.len(),
            forall|k: int| 0 <= k && k + 1 < i ==> !#[trigger] double_slash_at(text@, k),
        decreases n - i,
    {
        if text.get_char(i - 1) == '/' && text.get_char(i) == '/' {
            proof {
                assert(double_slash_at(text@, i - 1));
            }
            return true;
        }
        i += 1;
    }
    false
}

/// Picks the canonical form of an address from the two readings of it.
pub fn choose_netloc(direct: String, bare: bool, prefixed: String) -> (netloc: Option<String>)
    ensures
        match netloc {
            Some(n) => first_netloc(direct@, bare, prefixed@) == Some(n@) && n@.len() > 0,
            None => first_netloc(direct@, bare, prefixed@) is None,
        },
{
    if !direct.as_str().is_empty() {
        Some(direct)
    } else if bare && !prefixed.as_str().is_empty() {
        Some(prefixed)
    } else {
        None
    }
}

/// The canonical `host:port` form of `address`, or `None` for a malformed
/// address.
pub fn canonical_address(address: &str) -> (netloc: Option<String>)
    ensures
        match netloc {
            Some(n) => canonical_peer(address@) == Some(n@) && n@.len() > 0,
            None => canonical_peer(address@) is None,
        },
{
    let direct = parse_netloc(address);
    let bare = !holds_double_slash(address);
    let mut with_slashes = "//".to_owned();
    with_slashes.append(address);
    let prefixed = parse_netloc(with_slashes.as_str());
    choose_netloc(direct, bare, prefixed)
}

/// The address at which the peer `netloc` serves its chain.
pub open spec fn chain_url_text(netloc: Seq<char>) -> Seq<char> {
    "http://"@ + netloc + "/chain"@
}

/// The address at which the peer `netloc` serves its chain.
pub fn chain_url(netloc: &str) -> (url: String)
    ensures
        url@ == chain_url_text(netloc@),
{
    let mut url = "http://".to_owned();
    url.append(netloc);
    url.append("/chain");
    url
}

/// Whether `netloc` is among `peers`.
pub open spec fn is_known_peer(peers: Seq<Seq<char>>, netloc: Seq<char>) -> bool {
    peers.contains(netloc)
}

/// The peers after `netloc` was registered: unchanged where it is known,
/// else with `netloc` at the end.
pub open spec fn with_peer(peers: Seq<Seq<char>>, netloc: Seq<char>) -> Seq<Seq<char>> {
    if is_known_peer(peers, netloc) {
        peers
    } else {
        peers.push(netloc)
    }
}

/// The peers after each of `netlocs` was registered, in order.
pub open spec fn with_peers(peers: Seq<Seq<char>>, netlocs: Seq<Seq<char>>) -> Seq<Seq<char>>
    decreases netlocs.len(),
{
    if netlocs.len() == 0 {
        peers
    } else {
        with_peer(with_peers(peers, netlocs.drop_last()), netlocs.last())
    }
}

/// The texts of a list of strings.
pub open spec fn texts(list: Seq<String>) -> Seq<Seq<char>> {
    Seq::new(list.len(), |i: int| list[i]@)
}

/// Registering a peer keeps the peers distinct.
pub proof fn lemma_with_peer_distinct(peers: Seq<Seq<char>>, netloc: Seq<char>)
    requires
        peers.no_duplicates(),
    ensures
        with_peer(peers, netloc).no_duplicates(),
        with_peer(peers, netloc).contains(netloc),
{
    if !is_known_peer(peers, netloc) {
        let after = peers.push(netloc);
        assert(after[peers.len() as int] == netloc);
        assert forall|i: int, j: int|
            0 <= i < after.len() && 0 <= j < after.len() && i != j implies after[i] != after[j] by {
            if i < peers.len() {
                assert(peers.contains(after[i]));
            }
            if j < peers.len() {
                assert(peers.contains(after[j]));
            }
        }
    }
}

/// Registering is idempotent: a second registration of the same canonical
/// address changes nothing, so the number of peers stays as it is.
pub proof fn lemma_register_idempotent(peers: Seq<Seq<char>>, netloc: Seq<char>)
    ensures
        with_peer(with_peer(peers, netloc), netloc) == with_peer(peers, netloc),
        with_peer(with_peer(peers, netloc), netloc).len() == with_peer(peers, netloc).len(),
{
    if !is_known_peer(peers, netloc) {
        let after = peers.push(netloc);
        assert(after[peers.len() as int] == netloc);
        assert(after.contains(netloc));
    }
}

} // verus!
