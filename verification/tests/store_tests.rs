use blobby::blob_traits::SaveBlob;
use blobby::error::StoreError;
use blobby::file_handler::{FileBlobHandler, FileSettings};
use blobby::hashmap_handler::HashmapHandler;
use blobby::json::metadata_to_json;
use blobby::types::{Blob, Metadata, MetadataBuilder, Tag};

fn runtime() -> tokio::runtime::Runtime {
    tokio::runtime::Builder::new_multi_thread()
        .worker_threads(4)
        .enable_all()
        .build()
        .unwrap()
}

fn sample_metadata(name: &str, ext: &str, tags: Vec<&str>, timestamp: i64) -> Metadata {
    let mut builder = MetadataBuilder::new(name, ext);
    builder.set_tags(tags.into_iter().map(|t| Tag::new(t.to_string())).collect());
    builder.set_timestamp(timestamp);
    builder.build()
}

#[test]
fn builder_defaults() {
    let before = chrono::Utc::now().timestamp_millis();
    let metadata = MetadataBuilder::new("a", "txt").build();
    let after = chrono::Utc::now().timestamp_millis();
    assert_eq!(metadata.file_name, "a");
    assert_eq!(metadata.extension, "txt");
    assert!(metadata.tags.is_empty());
    assert!(before <= metadata.timestamp && metadata.timestamp <= after);
}

#[test]
fn builder_overrides() {
    let metadata = sample_metadata("report", "pdf", vec!["work", "draft"], 1234567);
    assert_eq!(metadata.file_name, "report");
    assert_eq!(metadata.extension, "pdf");
    assert_eq!(metadata.timestamp, 1234567);
    let tags: Vec<&str> = metadata.tags.iter().map(|t| t.text().as_str()).collect();
    assert_eq!(tags, vec!["work", "draft"]);
}

#[test]
fn metadata_json_exact() {
    let metadata = sample_metadata("bloep", "txt", vec!["a", "b"], 123);
    let json = metadata_to_json(&metadata);
    assert_eq!(
        json,
        "{\"file_name\":\"bloep\",\"extension\":\"txt\",\"tags\":[\"a\",\"b\"],\"timestamp\":123}"
    );
}

#[test]
fn metadata_json_negative_timestamp() {
    let metadata = sample_metadata("old", "bin", vec![], -45);
    let json = metadata_to_json(&metadata);
    assert_eq!(
        json,
        "{\"file_name\":\"old\",\"extension\":\"bin\",\"tags\":[],\"timestamp\":-45}"
    );
}

#[test]
fn metadata_json_escapes_parse_back() {
    let metadata = sample_metadata("a\"b\\c", "txt", vec!["x\"y"], 7);
    let json = metadata_to_json(&metadata);
    let value: serde_json::Value = serde_json::from_str(&json).unwrap();
    assert_eq!(value["file_name"], "a\"b\\c");
    assert_eq!(value["extension"], "txt");
    assert_eq!(value["tags"][0], "x\"y");
    assert_eq!(value["timestamp"], 7);
}

#[test]
fn metadata_json_escapes_control_chars() {
    let metadata = sample_metadata("bad\u{1}name", "txt", vec!["ta\ng"], 0);
    let json = metadata_to_json(&metadata);
    assert_eq!(
        json,
        "{\"file_name\":\"bad\\u0001name\",\"extension\":\"txt\",\"tags\":[\"ta\\u000ag\"],\"timestamp\":0}"
    );
    let value: serde_json::Value = serde_json::from_str(&json).unwrap();
    assert_eq!(value["file_name"], "bad\u{1}name");
    assert_eq!(value["tags"][0], "ta\ng");
}

#[test]
fn hashmap_save_then_lookup() {
    let mut store = HashmapHandler::default();
    let blob = Blob {
        metadata: sample_metadata("test", "txt", vec![], 99),
        data: vec![1, 2, 3],
    };
    let id = store.save_blob(blob).unwrap();
    let held = store.get(id).unwrap();
    assert_eq!(held.data, vec![1, 2, 3]);
    assert_eq!(held.metadata.file_name, "test");
    assert_eq!(held.metadata.extension, "txt");
    assert_eq!(held.metadata.timestamp, 99);
    assert_eq!(store.len(), 1);
    assert!(store.get(id.wrapping_add(1)).is_none());
}

#[test]
fn hashmap_saves_yield_distinct_identifiers() {
    let mut store = HashmapHandler::default();
    let mut ids = Vec::new();
    for i in 0..10u8 {
        let blob = Blob {
            metadata: sample_metadata("n", "bin", vec![], i as i64),
            data: vec![i],
        };
        ids.push(store.save_blob(blob).unwrap());
    }
    assert_eq!(store.len(), 10);
    let mut sorted = ids.clone();
    sorted.sort();
    sorted.dedup();
    assert_eq!(sorted.len(), 10);
}

#[test]
fn concurrent_saves_distinct() {
    let rt = runtime();
    rt.block_on(async {
        let store = std::sync::Arc::new(tokio::sync::Mutex::new(HashmapHandler::default()));
        let mut handles = Vec::new();
        for i in 0..16u8 {
            let shared = store.clone();
            handles.push(tokio::spawn(async move {
                let blob = Blob {
                    metadata: sample_metadata("c", "bin", vec![], i as i64),
                    data: vec![i],
                };
                shared.lock().await.save_blob(blob).unwrap()
            }));
        }
        let mut ids = Vec::new();
        for handle in handles {
            ids.push(handle.await.unwrap());
        }
        ids.sort();
        ids.dedup();
        assert_eq!(ids.len(), 16);
        assert_eq!(store.lock().await.len(), 16);
    });
}

#[test]
fn resolve_paths_match_identifier_text() {
    let settings = FileSettings {
        data_folder: "/data".to_string(),
        metadata_folder: "/meta".to_string(),
    };
    let id: u128 = 0xa1a2a3a4b1b2c1c2d1d2d3d4d5d6d7d8;
    let text = uuid::Uuid::from_u128(id).to_string();
    assert_eq!(settings.resolve_blob_path(id), format!("/data/{}.blob", text));
    assert_eq!(
        settings.resolve_metadata_path(id),
        format!("/meta/{}.json", text)
    );
}

#[test]
fn default_settings_use_tmp() {
    let settings = FileSettings::default();
    assert_eq!(settings.data_folder, "/tmp");
    assert_eq!(settings.metadata_folder, "/tmp");
}

#[test]
fn complete_withholds_identifier_on_failed_write() {
    let mut handler = FileBlobHandler::new(FileSettings::default());
    let blob = Blob {
        metadata: sample_metadata("x", "txt", vec![], 1),
        data: vec![9],
    };
    let plan = handler.prepare_save(blob);
    let id = plan.identifier;
    assert_eq!(plan.complete(true, true), Ok(id));
    assert_eq!(plan.complete(false, true), Err(StoreError::IoError));
    assert_eq!(plan.complete(true, false), Err(StoreError::IoError));
    assert_eq!(plan.complete(false, false), Err(StoreError::IoError));
}

#[test]
fn file_saves_yield_distinct_identifiers() {
    let mut handler = FileBlobHandler::new(FileSettings::default());
    let mut ids = Vec::new();
    for i in 0..10u8 {
        let blob = Blob {
            metadata: sample_metadata("n", "bin", vec![], i as i64),
            data: vec![i],
        };
        ids.push(handler.prepare_save(blob).identifier);
    }
    let mut sorted = ids.clone();
    sorted.sort();
    sorted.dedup();
    assert_eq!(sorted.len(), 10);
}

#[test]
fn test_save() {
    let rt = runtime();
    rt.block_on(async {
        let builder = MetadataBuilder::new("bloep", "txt");
        let file_settings = FileSettings::default();
        let mut blob_handler = FileBlobHandler::new(FileSettings::default());
        let blob = Blob {
            metadata: builder.build(),
            data: vec![],
        };

        let plan = blob_handler.prepare_save(blob);
        let data_written = tokio::fs::write(&plan.blob_path, &plan.data).await.is_ok();
        let metadata_written = tokio::fs::write(&plan.metadata_path, plan.metadata_text.as_bytes())
            .await
            .is_ok();
        let uuid = plan.complete(data_written, metadata_written).unwrap();

        let text = uuid::Uuid::from_u128(uuid).to_string();
        assert!(std::path::Path::new(&format!("{}/{}.blob", file_settings.data_folder, text))
            .exists());
        assert!(std::path::Path::new(&format!("{}/{}.json", file_settings.metadata_folder, text))
            .exists());
    });
}

#[test]
fn file_save_round_trips_on_disk() {
    let rt = runtime();
    rt.block_on(async {
        tokio::fs::create_dir_all("/tmp/d").await.unwrap();
        tokio::fs::create_dir_all("/tmp/m").await.unwrap();
        let mut handler = FileBlobHandler::new(FileSettings {
            data_folder: "/tmp/d".to_string(),
            metadata_folder: "/tmp/m".to_string(),
        });
        let blob = Blob {
            metadata: sample_metadata("bloep", "txt", vec![], 4242),
            data: vec![],
        };
        let plan = handler.prepare_save(blob);
        let data_written = tokio::fs::write(&plan.blob_path, &plan.data).await.is_ok();
        let metadata_written = tokio::fs::write(&plan.metadata_path, plan.metadata_text.as_bytes())
            .await
            .is_ok();
        let id = plan.complete(data_written, metadata_written).unwrap();

        let text = uuid::Uuid::from_u128(id).to_string();
        let stored_data = tokio::fs::read(format!("/tmp/d/{}.blob", text)).await.unwrap();
        assert!(stored_data.is_empty());
        let stored_text = tokio::fs::read_to_string(format!("/tmp/m/{}.json", text))
            .await
            .unwrap();
        let value: serde_json::Value = serde_json::from_str(&stored_text).unwrap();
        assert_eq!(value["file_name"], "bloep");
        assert_eq!(value["extension"], "txt");
        assert_eq!(value["tags"].as_array().unwrap().len(), 0);
        assert_eq!(value["timestamp"], 4242);
    });
}

#[test]
fn file_save_surfaces_io_error() {
    let rt = runtime();
    rt.block_on(async {
        let mut handler = FileBlobHandler::new(FileSettings {
            data_folder: "/tmp/blobby_no_such_folder/deeper".to_string(),
            metadata_folder: "/tmp/blobby_no_such_folder/deeper".to_string(),
        });
        let blob = Blob {
            metadata: sample_metadata("x", "txt", vec![], 0),
            data: vec![1],
        };
        let plan = handler.prepare_save(blob);
        let data_written = tokio::fs::write(&plan.blob_path, &plan.data).await.is_ok();
        assert!(!data_written);
        let result = plan.complete(data_written, false);
        assert_eq!(result, Err(StoreError::IoError));
    });
}

#[test]
fn tag_text_round_trip() {
    let tag = Tag::new("alpha".to_string());
    assert_eq!(tag.text().as_str(), "alpha");
}
