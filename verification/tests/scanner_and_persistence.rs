use asdb_taxa::TaxonCache;
use asdb_taxa::errors::ASDBTaxonError;
use asdb_taxa::idset::IdSet;
use asdb_taxa::scan::extract_taxid;

#[test]
fn scanner_collects_first_reference_per_file() {
    let cache = TaxonCache::new();
    let contents = vec![
        "{\"annotation\": \"taxon:123\", \"other\": \"taxon:456\"}".to_string(),
        "no reference here".to_string(),
        "{\"x\": \"taxon:789\"}".to_string(),
    ];
    let ids = cache.find_taxids(&contents);
    assert_eq!(ids.len(), 2);
    assert!(ids.contains(123));
    assert!(ids.contains(789));
    assert!(!ids.contains(456));
}

#[test]
fn scanner_deduplicates_and_skips_overflow() {
    let cache = TaxonCache::new();
    let contents = vec![
        "\"taxon:55\"".to_string(),
        "\"taxon:55\"".to_string(),
        "\"taxon:99999999999999999999\"".to_string(),
    ];
    let ids = cache.find_taxids(&contents);
    assert_eq!(ids.len(), 1);
    assert!(ids.contains(55));
}

#[test]
fn scanner_requires_quote_and_digits() {
    assert_eq!(extract_taxid("taxon:12 without quote"), None);
    assert_eq!(extract_taxid("\"taxon: 12\" space before digits"), None);
    assert_eq!(extract_taxid("prefix \"taxon:0042\" suffix"), Some(42));
    assert_eq!(extract_taxid(""), None);
}

#[test]
fn scanner_empty_corpus_gives_empty_set() {
    let cache = TaxonCache::new();
    let contents: Vec<String> = Vec::new();
    assert_eq!(cache.find_taxids(&contents).len(), 0);
}

#[test]
fn save_then_load_reproduces_the_cache() {
    let mut taxids = IdSet::new();
    taxids.insert(12345);
    taxids.insert(7);

    let merged_ids = "12345 | 23456 |";
    let taxdump = "23456 | Streptomyces examplis NBC12345 | Streptomyces examplis | Streptomyces | Streptomycetaceae | Streptomycetales | Actinomycetia | Actinobacteria |  | Bacteria |\n7 | Seventh thing | Seventh thing | G | F | O | C | P | K | S |";

    let mut cache = TaxonCache::new();
    assert!(cache.initialise(taxdump, merged_ids, &mut taxids).is_ok());

    let doc = cache.save();

    let mut reloaded = TaxonCache::new();
    let count = reloaded.load(doc.as_str()).unwrap();
    assert_eq!(count, 2);
    assert_eq!(reloaded.deprecated_ids.len(), cache.deprecated_ids.len());
    assert_eq!(reloaded.mappings.len(), cache.mappings.len());
    assert_eq!(*reloaded.deprecated_ids.get(12345).unwrap(), 23456);

    let original = cache.mappings.get(23456).unwrap();
    let restored = reloaded.mappings.get(23456).unwrap();
    assert_eq!(restored.tax_id, original.tax_id);
    assert_eq!(restored.name, original.name);
    assert_eq!(restored.species, original.species);
    assert_eq!(restored.genus, original.genus);
    assert_eq!(restored.family, original.family);
    assert_eq!(restored.order, original.order);
    assert_eq!(restored.class, original.class);
    assert_eq!(restored.phylum, original.phylum);
    assert_eq!(restored.kingdom, original.kingdom);
    assert_eq!(restored.superkingdom, original.superkingdom);

    let other = reloaded.mappings.get(7).unwrap();
    assert_eq!(other.name, "Seventh thing");
}

#[test]
fn empty_cache_round_trips() {
    let cache = TaxonCache::new();
    let doc = cache.save();
    let mut reloaded = TaxonCache::new();
    assert_eq!(reloaded.load(doc.as_str()).unwrap(), 0);
    assert_eq!(reloaded.mappings.len(), 0);
    assert_eq!(reloaded.deprecated_ids.len(), 0);
}

#[test]
fn load_replaces_previous_contents() {
    let mut taxids = IdSet::new();
    taxids.insert(1);
    let mut cache = TaxonCache::new();
    assert!(
        cache
            .initialise("1 | One | One sp | G | F | O | C | P | K | S |", "", &mut taxids)
            .is_ok()
    );
    let doc = cache.save();

    let mut other_set = IdSet::new();
    other_set.insert(2);
    let mut other = TaxonCache::new();
    assert!(
        other
            .initialise("2 | Two | Two sp | G | F | O | C | P | K | S |", "", &mut other_set)
            .is_ok()
    );

    assert!(other.load(doc.as_str()).is_ok());
    assert_eq!(other.mappings.len(), 1);
    assert!(other.mappings.get(1).is_some());
    assert!(other.mappings.get(2).is_none());
}

#[test]
fn malformed_document_is_a_parse_error() {
    let mut cache = TaxonCache::new();
    assert!(matches!(
        cache.load("not a cache document"),
        Err(ASDBTaxonError::JSONParserError(_))
    ));
    assert!(matches!(cache.load(""), Err(ASDBTaxonError::JSONParserError(_))));
    assert!(matches!(
        cache.load("taxoncache\n1\n5"),
        Err(ASDBTaxonError::JSONParserError(_))
    ));
    assert_eq!(cache.mappings.len(), 0);
}

#[test]
fn negative_ids_are_carried_through() {
    let mut taxids = IdSet::new();
    taxids.insert(-5);

    let taxdump = "-5 | Negative case | Negative case | G | F | O | C | P | K | S |";
    let mut cache = TaxonCache::new();
    assert!(cache.initialise(taxdump, "", &mut taxids).is_ok());
    assert_eq!(cache.mappings.get(-5).unwrap().name, "Negative case");

    let doc = cache.save();
    let mut reloaded = TaxonCache::new();
    assert_eq!(reloaded.load(doc.as_str()).unwrap(), 1);
    assert_eq!(reloaded.mappings.get(-5).unwrap().name, "Negative case");
}

#[test]
fn missing_trailing_fields_read_unknown() {
    let mut taxids = IdSet::new();
    taxids.insert(8);

    let taxdump = "8 | Just a name |";
    let mut cache = TaxonCache::new();
    assert!(cache.initialise(taxdump, "", &mut taxids).is_ok());
    let entry = cache.mappings.get(8).unwrap();
    assert_eq!(entry.name, "Just a name");
    assert_eq!(entry.species, "Unknown");
    assert_eq!(entry.superkingdom, "Unknown");
}
