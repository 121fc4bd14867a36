//! The search query: one language clause, then one clause for each license.

use vstd::prelude::*;
use vstd::string::*;

verus! {

/// What stands before the language in a query.
pub open spec fn language_clause() -> Seq<char> {
    "language:"@
}

/// What stands before each license in a query.
pub open spec fn license_clause() -> Seq<char> {
    " license:"@
}

/// The query for a language and an ordered list of licenses: the language
/// clause, followed by the license clauses in the order given. With no
/// licenses there is no license clause.
pub open spec fn query_text(language: Seq<char>, licenses: Seq<Seq<char>>) -> Seq<char>
    decreases licenses.len(),
{
    if licenses.len() == 0 {
        language_clause() + language
    } else {
        query_text(language, licenses.drop_last()) + license_clause() + licenses.last()
    }
}

/// What is asked of the search service: the query, and how the answer is to
/// be ordered.
pub struct SearchRequest {
    pub query: String,
    pub sort: String,
    pub order: String,
}

/// Builds the query string for a language and its licenses.
pub fn build_query(language: &str, licenses: &Vec<String>) -> (query: String)
    ensures
        query@ == query_text(language@, licenses.deep_view()),
{
    let mut query = String::from_str("language:");
    query.append(language);
    let mut i: usize = 0;
    assert(licenses.deep_view().take(0) =~= Seq::<Seq<char>>::empty());
    while i < licenses.len()
        invariant
            i <= licenses.len(),
            query@ == query_text(language@, licenses.deep_view().take(i as int)),
        decreases licenses.len() - i,
    {
        proof {
            let grown = licenses.deep_view().take(i as int + 1);
            assert(grown.drop_last() =~= licenses.deep_view().take(i as int));
            assert(grown.last() == licenses[i as int]@);
        }
        query.append(" license:");
        query.append(licenses[i].as_str());
        i = i + 1;
    }
    assert(licenses.deep_view().take(licenses.len() as int) =~= licenses.deep_view());
    query
}

/// The first request of a harvest: the query, with the most starred
/// repositories first.
pub fn first_request(language: &str, licenses: &Vec<String>) -> (request: SearchRequest)
    ensures
        request.query@ == query_text(language@, licenses.deep_view()),
        request.sort@ == "stars"@,
        request.order@ == "desc"@,
{
    SearchRequest {
        query: build_query(language, licenses),
        sort: String::from_str("stars"),
        order: String::from_str("desc"),
    }
}

} // verus!
