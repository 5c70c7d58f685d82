//! Which resources a list of content-blocking rules speaks of.
//!
//! The rules are matched by an engine from outside this library. This
//! library says what is asked of it: for each resource of the graph and each
//! kind of request that asked for it, the address, the two hosts, the kind,
//! and whether the request went to another site than the page.

use crate::graph::{Node, PageGraph};
use crate::ids::NodeId;
use crate::queries::{kinds_of, nodes_listed, RequestKind};
use crate::text::same_text;
use crate::types::NodeType;
use adblock::Engine;
use vstd::prelude::*;

verus! {

/// `adblock::Engine`, which holds a list of rules ready to be matched; the
/// list is known through `engine_list`.
#[verifier::external_type_specification]
#[verifier::external_body]
pub struct ExEngine(Engine);

/// The host that an address names, as the `url` crate reads it; nothing for
/// a text that is no address or an address without a host.
pub uninterp spec fn url_host(url: Seq<char>) -> Option<Seq<char>>;

/// The registrable part of a host name, by the public suffix list of the
/// `addr` crate; nothing for a text that is no domain name, or one that has
/// no such part.
pub uninterp spec fn domain_root(host: Seq<char>) -> Option<Seq<char>>;

/// The text of the list of rules that an engine was made from.
pub uninterp spec fn engine_list(engine: Engine) -> Seq<char>;

/// What the rules of the list `list` say of a request: whether it is to be
/// blocked, and whether a rule of exception speaks of it.
pub uninterp spec fn list_verdict(
    list: Seq<char>,
    url: Seq<char>,
    host: Seq<char>,
    source_host: Seq<char>,
    request_type: Seq<char>,
    third_party: bool,
) -> (bool, bool);

/// `Url::parse` reads the address and `Url::host_str` gives its host.
#[verifier::external_body]
pub(crate) fn host_of_url(url: &str) -> (host: Option<String>)
    ensures
        match host {
            Some(h) => url_host(url@) == Some(h@),
            None => url_host(url@) is None,
        },
{
    url::Url::parse(url).ok().and_then(|parsed| parsed.host_str().map(|h| h.to_owned()))
}

/// `addr::parse_domain_name` reads the host name and `Name::root` gives its
/// registrable part.
#[verifier::external_body]
pub(crate) fn root_of_domain(host: &str) -> (root: Option<String>)
    ensures
        match root {
            Some(r) => domain_root(host@) == Some(r@),
            None => domain_root(host@) is None,
        },
{
    addr::parse_domain_name(host).ok().and_then(|name| name.root().map(|r| r.to_owned()))
}

/// `Engine::new_with_list_text` makes an engine from the text of a list of
/// rules, one rule on each line.
#[verifier::external_body]
pub(crate) fn engine_of_list(list: String) -> (engine: Engine)
    ensures
        engine_list(engine) == list@,
{
    Engine::new_with_list_text(list)
}

/// `Engine::check_network_request_subset` says what the rules of the engine
/// say of a request that `Request::preparsed` describes; exceptions are
/// looked for even where no rule blocks.
#[verifier::external_body]
pub(crate) fn engine_verdict(
    engine: &Engine,
    url: &str,
    host: &str,
    source_host: &str,
    request_type: &str,
    third_party: bool,
) -> (verdict: (bool, bool))
    ensures
        verdict == list_verdict(
            engine_list(*engine),
            url@,
            host@,
            source_host@,
            request_type@,
            third_party,
        ),
{
    let request = adblock::request::Request::preparsed(
        url,
        host,
        source_host,
        request_type,
        third_party,
        "",
    );
    let result = engine.check_network_request_subset(&request, false, true);
    (result.should_block(), result.exception.is_some())
}

/// The text of a list of the rules `patterns`: each rule and a line end.
pub open spec fn list_text(patterns: Seq<String>) -> Seq<char>
    decreases patterns.len(),
{
    if patterns.len() == 0 {
        Seq::empty()
    } else {
        (list_text(patterns.drop_last()) + patterns.last()@).push('\n')
    }
}

/// The site of a host, given the registrable part of its name: `localhost`
/// is its own site, as it has no public suffix.
pub open spec fn site_given(host: Seq<char>, root: Option<Seq<char>>) -> Option<Seq<char>> {
    if host == "localhost"@ {
        Some(host)
    } else {
        root
    }
}

/// The site of a host.
pub open spec fn site_of(host: Seq<char>) -> Option<Seq<char>> {
    site_given(host, domain_root(host))
}

/// Whether a request to the site `request_site` from a page of the site
/// `source_site` goes to a third party.
pub open spec fn is_third_party(source_site: Seq<char>, request_site: Seq<char>) -> bool {
    source_site.len() == 0 || source_site != request_site
}

/// Whether a verdict is the one asked for: a rule of exception where only
/// exceptions are asked for, else that the request is to be blocked.
pub open spec fn verdict_wanted(verdict: (bool, bool), only_exceptions: bool) -> bool {
    if only_exceptions {
        verdict.1
    } else {
        verdict.0
    }
}

/// Whether the rules speak of a request for `url` of one of the kinds.
pub open spec fn any_kind_matches(
    list: Seq<char>,
    url: Seq<char>,
    host: Seq<char>,
    source_host: Seq<char>,
    third_party: bool,
    kinds: Seq<RequestKind>,
    only_exceptions: bool,
) -> bool {
    exists|i: int|
        0 <= i < kinds.len() && verdict_wanted(
            list_verdict(list, url, host, source_host, (#[trigger] kinds[i]).0, third_party),
            only_exceptions,
        )
}

/// The site of a host, given the registrable part of its name.
pub fn site_from(host: &str, root: Option<String>) -> (site: Option<String>)
    ensures
        match site {
            Some(s) => site_given(
                host@,
                match root {
                    Some(r) => Some(r@),
                    None => None,
                },
            ) == Some(s@),
            None => site_given(
                host@,
                match root {
                    Some(r) => Some(r@),
                    None => None,
                },
            ) is None,
        },
{
    if same_text(host, "localhost") {
        Some(host.to_owned())
    } else {
        root
    }
}

/// The site of a host: `localhost` for itself, else the registrable part of
/// the name.
pub fn get_domain(host: &str) -> (site: Option<String>)
    ensures
        match site {
            Some(s) => site_of(host@) == Some(s@),
            None => site_of(host@) is None,
        },
{
    if same_text(host, "localhost") {
        Some(host.to_owned())
    } else {
        root_of_domain(host)
    }
}

/// Whether a request to the site `request_site` from a page of the site
/// `source_site` goes to a third party.
pub fn third_party(source_site: &str, request_site: &str) -> (third: bool)
    ensures
        third == is_third_party(source_site@, request_site@),
{
    source_site.unicode_len() == 0 || !same_text(source_site, request_site)
}

/// Whether a verdict is the one asked for.
pub fn wanted_verdict(verdict: (bool, bool), only_exceptions: bool) -> (wanted: bool)
    ensures
        wanted == verdict_wanted(verdict, only_exceptions),
{
    if only_exceptions {
        verdict.1
    } else {
        verdict.0
    }
}

/// The text of a list of the rules `patterns`.
pub fn join_rules(patterns: &Vec<String>) -> (list: String)
    ensures
        list@ == list_text(patterns@),
{
    let mut list = String::new();
    let mut i: usize = 0;
    assert(list@ =~= list_text(patterns@.take(0)));
    while i < patterns.len()
        invariant
            i <= patterns@.len(),
            list@ == list_text(patterns@.take(i as int)),
        decreases patterns@.len() - i,
    {
        proof {
            assert(patterns@.take(i + 1).drop_last() =~= patterns@.take(i as int));
            assert(patterns@.take(i + 1).last() == patterns@[i as int]);
        }
        vstd::string::StringExecFns::append(&mut list, patterns[i].as_str());
        list.push('\n');
        i = i + 1;
    }
    assert(patterns@.take(i as int) =~= patterns@);
    list
}

impl PageGraph {
    /// Whether the rules of the list speak of the node: of a resource whose
    /// address has a host, for one of the kinds of request that asked for
    /// it. Nothing where the host of the resource has no site.
    pub open spec fn resource_matches(
        &self,
        list: Seq<char>,
        source_host: Seq<char>,
        source_site: Seq<char>,
        node: Node,
        only_exceptions: bool,
    ) -> Option<bool> {
        match node.node_type {
            NodeType::Resource { url } => match url_host(url@) {
                Some(host) => match site_of(host) {
                    Some(site) => Some(
                        any_kind_matches(
                            list,
                            url@,
                            host,
                            source_host,
                            is_third_party(source_site, site),
                            self.request_types_of(node.id),
                            only_exceptions,
                        ),
                    ),
                    None => None,
                },
                None => Some(false),
            },
            _ => Some(false),
        }
    }

    /// The first `upto` nodes of the graph that the rules of the list speak
    /// of. Nothing where the host of a resource among them has no site.
    pub open spec fn matching_upto(
        &self,
        list: Seq<char>,
        source_host: Seq<char>,
        source_site: Seq<char>,
        only_exceptions: bool,
        upto: nat,
    ) -> Option<Seq<Node>>
        decreases upto,
    {
        if upto == 0 || upto > self.nodes@.len() {
            Some(Seq::empty())
        } else {
            match self.matching_upto(list, source_host, source_site, only_exceptions, (upto - 1) as nat) {
                Some(found) => match self.resource_matches(
                    list,
                    source_host,
                    source_site,
                    self.nodes@[upto - 1],
                    only_exceptions,
                ) {
                    Some(true) => Some(found.push(self.nodes@[upto - 1])),
                    Some(false) => Some(found),
                    None => None,
                },
                None => None,
            }
        }
    }

    /// The resources of the graph that the rules of the list speak of, seen
    /// from the page that the graph was recorded from. Nothing where the
    /// address of the page has no host, or where that host or the host of a
    /// resource has no site.
    pub open spec fn resources_matching(&self, list: Seq<char>, only_exceptions: bool) -> Option<
        Seq<Node>,
    > {
        match url_host(self.desc.url@) {
            Some(source_host) => match site_of(source_host) {
                Some(source_site) => self.matching_upto(
                    list,
                    source_host,
                    source_site,
                    only_exceptions,
                    self.nodes@.len(),
                ),
                None => None,
            },
            None => None,
        }
    }

    /// Whether the rules of the engine speak of a request for `url` of one
    /// of the kinds.
    fn any_kind_matched(
        engine: &Engine,
        url: &str,
        host: &str,
        source_host: &str,
        third: bool,
        kinds: &Vec<(String, Option<usize>)>,
        only_exceptions: bool,
    ) -> (matched: bool)
        ensures
            matched == any_kind_matches(
                engine_list(*engine),
                url@,
                host@,
                source_host@,
                third,
                kinds_of(kinds@),
                only_exceptions,
            ),
    {
        let ghost all = kinds_of(kinds@);
        let mut i: usize = 0;
        while i < kinds.len()
            invariant
                i <= kinds@.len(),
                all == kinds_of(kinds@),
                forall|k: int|
                    0 <= k < i ==> !verdict_wanted(
                        list_verdict(
                            engine_list(*engine),
                            url@,
                            host@,
                            source_host@,
                            (#[trigger] all[k]).0,
                            third,
                        ),
                        only_exceptions,
                    ),
            decreases kinds@.len() - i,
        {
            assert(all[i as int].0 == kinds@[i as int].0@);
            let verdict = engine_verdict(
                engine,
                url,
                host,
                source_host,
                kinds[i].0.as_str(),
                third,
            );
            if wanted_verdict(verdict, only_exceptions) {
                return true;
            }
            i = i + 1;
        }
        false
    }

    /// The resources of the graph whose requests match the rules `patterns`
    /// or, where only exceptions are asked for, their rules of exception; if
    /// the hosts in question have sites.
    pub fn try_resources_matching_filters(&self, patterns: Vec<String>, only_exceptions: bool) -> (found:
        Option<Vec<(NodeId, &Node)>>)
        requires
            self.wf(),
        ensures
            match found {
                Some(nodes) => self.resources_matching(list_text(patterns@), only_exceptions)
                    == Some(nodes_listed(nodes@)) && forall|i: int|
                    0 <= i < nodes@.len() ==> (#[trigger] nodes@[i]).0 == nodes@[i].1.id,
                None => self.resources_matching(list_text(patterns@), only_exceptions) is None,
            },
    {
        let source_host = match host_of_url(self.desc.url.as_str()) {
            Some(host) => host,
            None => {
                return None;
            },
        };
        let source_site = match get_domain(source_host.as_str()) {
            Some(site) => site,
            None => {
                return None;
            },
        };
        let engine = engine_of_list(join_rules(&patterns));
        let ghost list = list_text(patterns@);
        let mut found: Vec<(NodeId, &Node)> = Vec::new();
        let mut i: usize = 0;
        assert(nodes_listed(found@) =~= Seq::<Node>::empty());
        while i < self.nodes.len()
            invariant
                self.wf(),
                i <= self.nodes@.len(),
                list == list_text(patterns@),
                engine_list(engine) == list,
                self.resources_matching(list, only_exceptions) == self.matching_upto(
                    list,
                    source_host@,
                    source_site@,
                    only_exceptions,
                    self.nodes@.len(),
                ),
                self.matching_upto(list, source_host@, source_site@, only_exceptions, i as nat)
                    == Some(nodes_listed(found@)),
                forall|k: int| 0 <= k < found@.len() ==> (#[trigger] found@[k]).0 == found@[k].1.id,
            decreases self.nodes@.len() - i,
        {
            let node: &Node = &self.nodes[i];
            let matched = match &node.node_type {
                NodeType::Resource { url } => match host_of_url(url.as_str()) {
                    Some(host) => match get_domain(host.as_str()) {
                        Some(site) => {
                            proof {
                                self.lemma_node_at(i as int);
                            }
                            let kinds = self.resource_request_types(&node.id);
                            Self::any_kind_matched(
                                &engine,
                                url.as_str(),
                                host.as_str(),
                                source_host.as_str(),
                                third_party(source_site.as_str(), site.as_str()),
                                &kinds,
                                only_exceptions,
                            )
                        },
                        None => {
                            proof {
                                self.lemma_matching_fails(
                                    list,
                                    source_host@,
                                    source_site@,
                                    only_exceptions,
                                    (i + 1) as nat,
                                );
                            }
                            return None;
                        },
                    },
                    None => false,
                },
                _ => false,
            };
            if matched {
                let ghost before = nodes_listed(found@);
                found.push((node.id, node));
                assert(nodes_listed(found@) =~= before.push(*node));
            }
            i = i + 1;
        }
        Some(found)
    }

    /// Where the first nodes have no answer, all of them have none.
    proof fn lemma_matching_fails(
        &self,
        list: Seq<char>,
        source_host: Seq<char>,
        source_site: Seq<char>,
        only_exceptions: bool,
        upto: nat,
    )
        requires
            upto <= self.nodes@.len(),
            self.matching_upto(list, source_host, source_site, only_exceptions, upto) is None,
        ensures
            self.matching_upto(
                list,
                source_host,
                source_site,
                only_exceptions,
                self.nodes@.len(),
            ) is None,
        decreases self.nodes@.len() - upto,
    {
        if upto < self.nodes@.len() {
            self.lemma_matching_fails(list, source_host, source_site, only_exceptions, upto + 1);
        }
    }

    /// The resources of the graph whose requests match the rules `patterns`
    /// or, where only exceptions are asked for, their rules of exception.
    pub fn resources_matching_filters(&self, patterns: Vec<String>, only_exceptions: bool) -> (nodes:
        Vec<(NodeId, &Node)>)
        requires
            self.wf(),
            self.resources_matching(list_text(patterns@), only_exceptions) is Some,
        ensures
            self.resources_matching(list_text(patterns@), only_exceptions) == Some(
                nodes_listed(nodes@),
            ),
            forall|i: int| 0 <= i < nodes@.len() ==> (#[trigger] nodes@[i]).0 == nodes@[i].1.id,
    {
        self.try_resources_matching_filters(patterns, only_exceptions).unwrap()
    }

    /// The resources of the graph whose requests match the rule `pattern`,
    /// if the hosts in question have sites.
    pub fn try_resources_matching_filter(&self, pattern: &str, only_exceptions: bool) -> (found:
        Option<Vec<(NodeId, &Node)>>)
        requires
            self.wf(),
        ensures
            match found {
                Some(nodes) => self.resources_matching(pattern@.push('\n'), only_exceptions)
                    == Some(nodes_listed(nodes@)) && forall|i: int|
                    0 <= i < nodes@.len() ==> (#[trigger] nodes@[i]).0 == nodes@[i].1.id,
                None => self.resources_matching(pattern@.push('\n'), only_exceptions) is None,
            },
    {
        let mut patterns: Vec<String> = Vec::new();
        patterns.push(pattern.to_owned());
        proof {
            assert(patterns@.drop_last() =~= Seq::<String>::empty());
            assert(list_text(patterns@.drop_last()) =~= Seq::<char>::empty());
            assert(list_text(patterns@) =~= pattern@.push('\n'));
        }
        self.try_resources_matching_filters(patterns, only_exceptions)
    }

    /// The resources of the graph whose requests match the rule `pattern`.
    pub fn resources_matching_filter(&self, pattern: &str, only_exceptions: bool) -> (nodes: Vec<
        (NodeId, &Node),
    >)
        requires
            self.wf(),
            self.resources_matching(pattern@.push('\n'), only_exceptions) is Some,
        ensures
            self.resources_matching(pattern@.push('\n'), only_exceptions) == Some(
                nodes_listed(nodes@),
            ),
            forall|i: int| 0 <= i < nodes@.len() ==> (#[trigger] nodes@[i]).0 == nodes@[i].1.id,
    {
        self.try_resources_matching_filter(pattern, only_exceptions).unwrap()
    }
}

} // verus!
