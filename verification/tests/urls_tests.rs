use bicep_review::urls::{
    changes_url, chat_completions_url, file_content_url, iterations_url, org_base_url,
    repository_url, search_url, threads_url, url_encode,
};

#[test]
fn org_with_the_canonical_host_keeps_it_without_trailing_slashes() {
    assert_eq!(
        org_base_url("https://dev.azure.com/contoso/"),
        "https://dev.azure.com/contoso"
    );
    assert_eq!(
        org_base_url("https://dev.azure.com/contoso"),
        "https://dev.azure.com/contoso"
    );
}

#[test]
fn short_org_names_are_put_after_the_canonical_host() {
    assert_eq!(org_base_url("contoso"), "https://dev.azure.com/contoso");
    assert_eq!(org_base_url("/contoso/"), "https://dev.azure.com/contoso");
    assert_eq!(
        org_base_url("contoso.dev.azure.com"),
        "https://dev.azure.com/contoso.dev.azure.com"
    );
}

#[test]
fn url_encoding_matches_the_encoder_it_relies_on() {
    assert_eq!(url_encode("My Project"), "My%20Project");
    assert_eq!(url_encode("a-b._~c"), "a-b._~c");
    assert_eq!(url_encode("sla/sh?q=1"), "sla%2Fsh%3Fq%3D1");
    for s in ["plain", "with space", "\u{e9}t\u{e9}", "a+b&c"] {
        assert_eq!(url_encode(s), urlencoding::encode(s).into_owned());
    }
}

#[test]
fn chat_completions_address() {
    assert_eq!(
        chat_completions_url("https://oai.example", "gpt-dep", "2023-03-15-preview"),
        "https://oai.example/openai/deployments/gpt-dep/chat/completions?api-version=2023-03-15-preview"
    );
}

#[test]
fn search_address_embeds_the_raw_category_and_caps_at_two() {
    assert_eq!(
        search_url("https://search.example", "bicep-index", "Naming"),
        "https://search.example/indexes/bicep-index/docs?api-version=2021-04-30-Preview&search=Naming&$top=2"
    );
}

#[test]
fn repository_address_encodes_project_and_name() {
    assert_eq!(
        repository_url("contoso", "My Project", "my repo"),
        "https://dev.azure.com/contoso/My%20Project/_apis/git/repositories/my%20repo?api-version=7.1"
    );
}

#[test]
fn iteration_and_change_addresses() {
    assert_eq!(
        iterations_url("contoso", "proj", "guid-1", 42),
        "https://dev.azure.com/contoso/proj/_apis/git/repositories/guid-1/pullRequests/42/iterations?api-version=7.1"
    );
    assert_eq!(
        changes_url("contoso", "proj", "guid-1", 42, 7),
        "https://dev.azure.com/contoso/proj/_apis/git/repositories/guid-1/pullRequests/42/iterations/7/changes?api-version=7.1"
    );
}

#[test]
fn file_content_address_encodes_the_path() {
    assert_eq!(
        file_content_url("contoso", "proj", "guid-1", "obj-9", "/infra/main.bicep"),
        "https://dev.azure.com/contoso/proj/_apis/git/repositories/guid-1/items?objectId=obj-9&path=%2Finfra%2Fmain.bicep&includeContent=true&api-version=7.1"
    );
}

#[test]
fn threads_address() {
    assert_eq!(
        threads_url("https://dev.azure.com/contoso", "proj", "guid-1", 5),
        "https://dev.azure.com/contoso/proj/_apis/git/repositories/guid-1/pullRequests/5/threads?api-version=7.1"
    );
}
