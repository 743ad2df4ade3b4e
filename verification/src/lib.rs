//! Verified core of an article link-graph builder.
//!
//! The library ingests markup events from a single large encyclopedia dump,
//! extracts one record per page element (a content page with its outgoing
//! wiki links, or a redirect), merges the results of several independent
//! parsers, and repairs multi-hop redirect chains so that every link in the
//! final graph points at a true content page.

pub mod article_parser;
