use asdb_taxa::TaxonCache;
use asdb_taxa::errors::ASDBTaxonError;
use asdb_taxa::idset::IdSet;

#[test]
fn test_initialise() {
    let mut taxids = IdSet::new();
    taxids.insert(12345);

    let merged_ids = "12345   |    23456  |";
    let taxdump = "23456  |       Streptomyces examplis NBC12345   |       Streptomyces examplis |       Streptomyces    |       Streptomycetaceae       |       Streptomycetales        |       Actinomycetia   |       Actinobacteria  |               |      Bacteria |";

    let mut taxon_cache = TaxonCache::new();

    let res = taxon_cache.initialise(taxdump, merged_ids, &mut taxids);
    assert_eq!(res.is_ok(), true);
    assert_eq!(
        taxon_cache.deprecated_ids.len(),
        1,
        "unexpected length of deprecated_ids: {}",
        taxon_cache.deprecated_ids.len()
    );
    assert_eq!(
        taxon_cache.mappings.len(),
        1,
        "unexpected length of mappings: {}",
        taxon_cache.mappings.len()
    );
    assert_eq!(
        taxon_cache.mappings.get(23456).unwrap().name,
        "Streptomyces examplis NBC12345"
    );
}

#[test]
fn merge_row_moves_working_set() {
    let mut taxids = IdSet::new();
    taxids.insert(12345);

    let mut cache = TaxonCache::new();
    let res = cache.initialise("", "12345 | 23456 |", &mut taxids);
    assert!(res.is_ok());
    assert_eq!(cache.deprecated_ids.len(), 1);
    assert_eq!(*cache.deprecated_ids.get(12345).unwrap(), 23456);
    assert_eq!(taxids.len(), 1);
    assert!(taxids.contains(23456));
    assert!(!taxids.contains(12345));
}

#[test]
fn irrelevant_merge_row_is_skipped() {
    let mut taxids = IdSet::new();
    taxids.insert(7);

    let mut cache = TaxonCache::new();
    let res = cache.initialise("", "12345 | 23456 |", &mut taxids);
    assert!(res.is_ok());
    assert_eq!(cache.deprecated_ids.len(), 0);
    assert_eq!(taxids.len(), 1);
    assert!(taxids.contains(7));
}

#[test]
fn malformed_merge_row_is_fatal() {
    let mut taxids = IdSet::new();
    taxids.insert(1);

    let mut cache = TaxonCache::new();
    let res = cache.initialise("", "abc | 2 |", &mut taxids);
    assert!(matches!(res, Err(ASDBTaxonError::IntParserError(_))));
}

#[test]
fn malformed_new_id_is_fatal_when_row_is_relevant() {
    let mut taxids = IdSet::new();
    taxids.insert(5);

    let mut cache = TaxonCache::new();
    let res = cache.initialise("", "5 | xyz |", &mut taxids);
    assert!(matches!(res, Err(ASDBTaxonError::IntParserError(_))));
}

#[test]
fn malformed_taxdump_id_is_fatal() {
    let mut taxids = IdSet::new();
    taxids.insert(5);

    let mut cache = TaxonCache::new();
    let res = cache.initialise("bogus | name |", "", &mut taxids);
    assert!(matches!(res, Err(ASDBTaxonError::IntParserError(_))));
}

#[test]
fn lineage_record_fields_are_normalized() {
    let mut taxids = IdSet::new();
    taxids.insert(12345);

    let merged_ids = "12345 | 23456 |";
    let taxdump = "23456 | Streptomyces examplis NBC12345 | Streptomyces examplis | Streptomyces | Streptomycetaceae | Streptomycetales | Actinomycetia | Actinobacteria |  | Bacteria |";

    let mut cache = TaxonCache::new();
    let res = cache.initialise(taxdump, merged_ids, &mut taxids);
    assert!(res.is_ok());

    let entry = cache.mappings.get(23456).unwrap();
    assert_eq!(entry.tax_id, 23456);
    assert_eq!(entry.name, "Streptomyces examplis NBC12345");
    assert_eq!(entry.species, "examplis");
    assert_eq!(entry.genus, "Streptomyces");
    assert_eq!(entry.family, "Streptomycetaceae");
    assert_eq!(entry.order, "Streptomycetales");
    assert_eq!(entry.class, "Actinomycetia");
    assert_eq!(entry.phylum, "Actinobacteria");
    assert_eq!(entry.kingdom, "Unknown");
    assert_eq!(entry.superkingdom, "Bacteria");
}

#[test]
fn species_falls_back_to_whole_column_without_whitespace() {
    let mut taxids = IdSet::new();
    taxids.insert(9);

    let taxdump = "9 | Short name | Singletoken | G | F | O | C | P | K | S |";
    let mut cache = TaxonCache::new();
    assert!(cache.initialise(taxdump, "", &mut taxids).is_ok());
    assert_eq!(cache.mappings.get(9).unwrap().species, "Singletoken");
}

#[test]
fn rows_outside_working_set_are_skipped() {
    let mut taxids = IdSet::new();
    taxids.insert(1);

    let taxdump = "2 | Other | Other sp | G | F | O | C | P | K | S |";
    let mut cache = TaxonCache::new();
    assert!(cache.initialise(taxdump, "", &mut taxids).is_ok());
    assert_eq!(cache.mappings.len(), 0);
}

#[test]
fn last_row_per_id_wins() {
    let mut taxids = IdSet::new();
    taxids.insert(4);

    let taxdump = "4 | First | A b | G | F | O | C | P | K | S |\n4 | Second | A b | G | F | O | C | P | K | S |";
    let mut cache = TaxonCache::new();
    assert!(cache.initialise(taxdump, "", &mut taxids).is_ok());
    assert_eq!(cache.mappings.len(), 1);
    assert_eq!(cache.mappings.get(4).unwrap().name, "Second");
}

#[test]
fn second_build_leaves_prior_records_untouched() {
    let mut first_set = IdSet::new();
    first_set.insert(23456);
    let first_dump = "23456 | Alpha one | Alpha one | G1 | F1 | O1 | C1 | P1 | K1 | S1 |";

    let mut cache = TaxonCache::new();
    assert!(cache.initialise(first_dump, "", &mut first_set).is_ok());
    assert_eq!(cache.mappings.len(), 1);

    let mut second_set = IdSet::new();
    second_set.insert(424242);
    let second_dump = "424242 | Beta two | Beta two | G2 | F2 | O2 | C2 | P2 | K2 | S2 |";
    assert!(cache.initialise(second_dump, "", &mut second_set).is_ok());

    assert_eq!(cache.mappings.len(), 2);
    assert_eq!(cache.mappings.get(23456).unwrap().name, "Alpha one");
    assert_eq!(cache.mappings.get(23456).unwrap().genus, "G1");
    assert_eq!(cache.mappings.get(424242).unwrap().name, "Beta two");
}

#[test]
fn list_reports_ids_names_and_count() {
    let mut taxids = IdSet::new();
    taxids.insert(1);
    taxids.insert(2);

    let taxdump = "1 | One | One sp | G | F | O | C | P | K | S |\n2 | Two | Two sp | G | F | O | C | P | K | S |";
    let mut cache = TaxonCache::new();
    assert!(cache.initialise(taxdump, "", &mut taxids).is_ok());

    let listing = cache.list();
    assert_eq!(listing.len(), 2);
    assert!(listing.contains(&(1, "One".to_string())));
    assert!(listing.contains(&(2, "Two".to_string())));
}
