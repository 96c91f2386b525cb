use plojo::lookup::{count_matches, format_lookup, lookup, Dict};

fn testing_dict() -> Vec<(Dict, String)> {
    vec![
        (
            Dict::from_pairs(vec![
                (
                    "hello".to_string(),
                    vec![
                        "H-L".to_string(),
                        "H*EL".to_string(),
                        "HEL/HRO".to_string(),
                        "HO*EL".to_string(),
                    ],
                ),
                (
                    "world".to_string(),
                    vec![
                        "WORLD".to_string(),
                        "WORLTD".to_string(),
                        "WORL".to_string(),
                    ],
                ),
            ]),
            "default.json".to_string(),
        ),
        (
            Dict::from_pairs(vec![(
                "world".to_string(),
                vec!["WORLD".to_string(), "WORLD/WORLD".to_string()],
            )]),
            "secondary.json".to_string(),
        ),
    ]
}

#[test]
fn lookup_basic() {
    let dicts = testing_dict();
    assert_eq!(
        lookup(&dicts, "hello".to_string()),
        vec![(
            &vec![
                "H-L".to_string(),
                "H*EL".to_string(),
                "HEL/HRO".to_string(),
                "HO*EL".to_string(),
            ],
            &"default.json".to_string()
        )]
    );
    assert_eq!(
        lookup(&dicts, "world".to_string()),
        vec![
            (
                &vec![
                    "WORLD".to_string(),
                    "WORLTD".to_string(),
                    "WORL".to_string(),
                ],
                &"default.json".to_string()
            ),
            (
                &vec!["WORLD".to_string(), "WORLD/WORLD".to_string()],
                &"secondary.json".to_string()
            )
        ]
    );
    // search should be case sensitive
    assert_eq!(lookup(&dicts, "World".to_string()), vec![]);
}

#[test]
fn format_basic() {
    assert_eq!(
        format_lookup(&vec![
            (
                &vec!["H-L".to_string(), "H*EL".to_string()],
                &"default.json".to_string(),
            ),
            (&vec!["HEL/HRO".to_string()], &"secondary.json".to_string()),
        ]),
        r#"
File: default.json
H-L
H*EL

File: secondary.json
HEL/HRO
"#
    )
}

#[test]
fn parse_dictionary_basic() {
    let dict = plojo::lookup::parse_dictionary(
        r#"
        {
            "H-L": "hello",
            "HEL/HRO": "hello",
            "H*EL": "hello",
            "WORLD": "world",
            "STPR*EU": {"cmds": [{ "Shell": ["open", ["-a", "Safari"]] }]}
        }
        "#,
    );

    assert!(dict.get("world").is_some());
    assert!(dict.get("this does not exist").is_none());
    assert_eq!(dict.get("hello").unwrap().len(), 3);
    assert_eq!(
        dict.get(r#"{"cmds":[{"Shell":["open",["-a","Safari"]]}]}"#)
            .unwrap(),
        &vec!["STPR*EU".to_string()]
    );
}

#[test]
fn count_all_matches() {
    let dicts = testing_dict();
    assert_eq!(count_matches(&lookup(&dicts, "world".to_string())), 5);
    assert_eq!(count_matches(&lookup(&dicts, "hello".to_string())), 4);
    assert_eq!(count_matches(&lookup(&dicts, "none".to_string())), 0);
}
