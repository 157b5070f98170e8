use gpu_buffer::{BindingCache, ElementBuffer, Error, StaticMesh, Target, VertexBuffer, NO_BUFFER};

fn two_vertex_mesh() -> StaticMesh<f32> {
    let mut mesh = StaticMesh::new(2);
    mesh.add_attribute("position".to_string(), 3, vec![0.0, 0.0, 0.0, 1.0, 1.0, 1.0]);
    mesh.add_attribute("uv".to_string(), 2, vec![0.0, 0.0, 1.0, 1.0]);
    mesh
}

fn distinct_mesh() -> StaticMesh<f32> {
    let mut mesh = StaticMesh::new(2);
    mesh.add_attribute("position".to_string(), 3, vec![1.0, 2.0, 3.0, 4.0, 5.0, 6.0]);
    mesh.add_attribute("normal".to_string(), 1, vec![20.0, 21.0]);
    mesh.add_attribute("uv".to_string(), 2, vec![7.0, 8.0, 9.0, 10.0]);
    mesh
}

fn layout_of(buffer: &VertexBuffer) -> Vec<(String, usize)> {
    buffer.attributes_iter().map(|a| (a.name.clone(), a.no_components)).collect()
}

fn offsets_of(buffer: &VertexBuffer) -> Vec<(String, usize)> {
    let mut offset = 0;
    let mut out = Vec::new();
    for a in buffer.attributes_iter() {
        out.push((a.name.clone(), offset));
        offset += a.no_components;
    }
    out
}

#[test]
fn position_then_uv_packs_five_wide_records() {
    let mesh = two_vertex_mesh();
    let mut cache = BindingCache::new();
    let mut buffer = VertexBuffer::create(1).unwrap();
    let upload = buffer.fill_from_attributes(&mesh, &vec!["position", "uv"], &mut cache).unwrap();
    assert_eq!(buffer.stride(), 5);
    assert_eq!(upload.data, vec![0.0, 0.0, 0.0, 0.0, 0.0, 1.0, 1.0, 1.0, 1.0, 1.0]);
    assert_eq!(layout_of(&buffer), vec![("position".to_string(), 3), ("uv".to_string(), 2)]);
    assert_eq!(offsets_of(&buffer), vec![("position".to_string(), 0), ("uv".to_string(), 3)]);
    assert_eq!(upload.target, Target::Array);
    assert_eq!(upload.id, 1);
}

#[test]
fn uv_then_position_swaps_the_layout() {
    let mesh = two_vertex_mesh();
    let mut cache = BindingCache::new();
    let mut buffer = VertexBuffer::create(1).unwrap();
    let upload = buffer.fill_from_attributes(&mesh, &vec!["uv", "position"], &mut cache).unwrap();
    assert_eq!(buffer.stride(), 5);
    assert_eq!(upload.data, vec![0.0, 0.0, 0.0, 0.0, 0.0, 1.0, 1.0, 1.0, 1.0, 1.0]);
    assert_eq!(layout_of(&buffer), vec![("uv".to_string(), 2), ("position".to_string(), 3)]);
    assert_eq!(offsets_of(&buffer), vec![("uv".to_string(), 0), ("position".to_string(), 2)]);
}

#[test]
fn missing_normal_is_reported_by_name() {
    let mesh = two_vertex_mesh();
    let mut cache = BindingCache::new();
    let mut buffer = VertexBuffer::create(1).unwrap();
    match buffer.fill_from_attributes(&mesh, &vec!["normal"], &mut cache) {
        Err(Error::AttributeNotFound { name }) => assert_eq!(name, "normal"),
        other => panic!("unexpected result {:?}", other),
    }
}

#[test]
fn element_buffer_uploads_indices_unchanged() {
    let mut cache = BindingCache::new();
    let buffer = ElementBuffer::create(4).unwrap();
    let upload = buffer.fill_with(&[0, 1, 2, 2, 3, 0], &mut cache);
    assert_eq!(upload.data, vec![0, 1, 2, 2, 3, 0]);
    assert_eq!(upload.data.len(), 6);
    assert_eq!(upload.target, Target::ElementArray);
    assert_eq!(upload.id, 4);
    assert!(upload.bind_issued);
}

#[test]
fn interleaving_places_each_component() {
    let mesh = distinct_mesh();
    let mut cache = BindingCache::new();
    let mut buffer = VertexBuffer::create(1).unwrap();
    let upload = buffer
        .fill_from_attributes(&mesh, &vec!["uv", "position", "normal"], &mut cache)
        .unwrap();
    assert_eq!(buffer.stride(), 6);
    assert_eq!(
        upload.data,
        vec![7.0, 8.0, 1.0, 2.0, 3.0, 20.0, 9.0, 10.0, 4.0, 5.0, 6.0, 21.0]
    );
}

#[test]
fn deinterleaving_with_the_layout_gives_the_streams_back() {
    let mesh = distinct_mesh();
    let mut cache = BindingCache::new();
    let mut buffer = VertexBuffer::create(1).unwrap();
    let upload = buffer
        .fill_from_attributes(&mesh, &vec!["normal", "uv", "position"], &mut cache)
        .unwrap();
    let stride = buffer.stride();
    let mut offset = 0;
    for a in buffer.attributes_iter() {
        let mut stream = Vec::new();
        for v in 0..2 {
            for j in 0..a.no_components {
                stream.push(upload.data[v * stride + offset + j]);
            }
        }
        let original = mesh.attribute(&a.name).unwrap();
        assert_eq!(stream, original.data);
        offset += a.no_components;
    }
    assert_eq!(offset, stride);
}

#[test]
fn repeated_name_is_laid_out_twice() {
    let mesh = distinct_mesh();
    let mut cache = BindingCache::new();
    let mut buffer = VertexBuffer::create(1).unwrap();
    let upload = buffer.fill_from_attributes(&mesh, &vec!["normal", "normal"], &mut cache).unwrap();
    assert_eq!(buffer.stride(), 2);
    assert_eq!(upload.data, vec![20.0, 20.0, 21.0, 21.0]);
}

#[test]
fn empty_request_gives_empty_layout() {
    let mesh = distinct_mesh();
    let mut cache = BindingCache::new();
    let mut buffer = VertexBuffer::create(1).unwrap();
    let upload = buffer.fill_from_attributes(&mesh, &vec![], &mut cache).unwrap();
    assert_eq!(buffer.stride(), 0);
    assert!(upload.data.is_empty());
    assert_eq!(buffer.attributes_iter().count(), 0);
}

#[test]
fn mesh_without_vertices_packs_nothing() {
    let mut mesh: StaticMesh<f32> = StaticMesh::new(0);
    mesh.add_attribute("position".to_string(), 3, vec![]);
    let mut cache = BindingCache::new();
    let mut buffer = VertexBuffer::create(1).unwrap();
    let upload = buffer.fill_from_attributes(&mesh, &vec!["position"], &mut cache).unwrap();
    assert_eq!(buffer.stride(), 3);
    assert!(upload.data.is_empty());
}

#[test]
fn missing_name_anywhere_in_the_request_fails_and_keeps_the_layout() {
    let mesh = distinct_mesh();
    let requests = vec![
        vec!["tangent", "uv", "position"],
        vec!["uv", "tangent", "position"],
        vec!["uv", "position", "tangent"],
    ];
    for request in requests {
        let mut cache = BindingCache::new();
        let mut buffer = VertexBuffer::create(1).unwrap();
        buffer.fill_from_attributes(&mesh, &vec!["position"], &mut cache).unwrap();
        let before = cache;
        match buffer.fill_from_attributes(&mesh, &request, &mut cache) {
            Err(Error::AttributeNotFound { name }) => assert_eq!(name, "tangent"),
            other => panic!("unexpected result {:?}", other),
        }
        assert_eq!(buffer.stride(), 3);
        assert_eq!(layout_of(&buffer), vec![("position".to_string(), 3)]);
        assert_eq!(cache.bound(Target::Array), before.bound(Target::Array));
    }
}

#[test]
fn first_missing_name_is_the_one_reported() {
    let mesh = distinct_mesh();
    let mut cache = BindingCache::new();
    let mut buffer = VertexBuffer::create(1).unwrap();
    match buffer.fill_from_attributes(&mesh, &vec!["uv", "color", "tangent"], &mut cache) {
        Err(Error::AttributeNotFound { name }) => assert_eq!(name, "color"),
        other => panic!("unexpected result {:?}", other),
    }
}

#[test]
fn refill_replaces_the_layout() {
    let mesh = distinct_mesh();
    let mut cache = BindingCache::new();
    let mut buffer = VertexBuffer::create(1).unwrap();
    buffer.fill_from_attributes(&mesh, &vec!["position", "uv"], &mut cache).unwrap();
    let upload = buffer.fill_from_attributes(&mesh, &vec!["normal"], &mut cache).unwrap();
    assert_eq!(buffer.stride(), 1);
    assert_eq!(layout_of(&buffer), vec![("normal".to_string(), 1)]);
    assert_eq!(upload.data, vec![20.0, 21.0]);
}

#[test]
fn null_handle_is_an_allocation_error() {
    assert!(matches!(VertexBuffer::create(NO_BUFFER), Err(Error::AllocationError)));
    assert!(matches!(ElementBuffer::create(NO_BUFFER), Err(Error::AllocationError)));
    assert_eq!(VertexBuffer::create(9).unwrap().id(), 9);
    assert_eq!(ElementBuffer::create(9).unwrap().id(), 9);
    assert_eq!(VertexBuffer::create(9).unwrap().stride(), 0);
}

#[test]
fn binding_the_same_handle_twice_issues_one_bind() {
    let mut cache = BindingCache::new();
    let mut issued = 0;
    for _ in 0..2 {
        if cache.bind(7, Target::Array) {
            issued += 1;
        }
    }
    assert_eq!(issued, 1);
    assert_eq!(cache.bound(Target::Array), Some(7));
}

#[test]
fn binding_two_handles_issues_two_binds() {
    let mut cache = BindingCache::new();
    assert!(cache.bind(7, Target::Array));
    assert!(cache.bind(8, Target::Array));
    assert!(cache.bind(7, Target::Array));
}

#[test]
fn targets_keep_separate_slots() {
    let mut cache = BindingCache::new();
    assert_eq!(cache.bound(Target::Array), None);
    assert_eq!(cache.bound(Target::ElementArray), None);
    assert!(cache.bind(3, Target::Array));
    assert!(cache.bind(3, Target::ElementArray));
    assert!(!cache.bind(3, Target::Array));
    assert!(!cache.bind(3, Target::ElementArray));
    assert_eq!(cache.bound(Target::Array), Some(3));
    assert_eq!(cache.bound(Target::ElementArray), Some(3));
}

#[test]
fn buffers_bind_through_the_cache() {
    let mut cache = BindingCache::new();
    let vertices = VertexBuffer::create(1).unwrap();
    let indices = ElementBuffer::create(2).unwrap();
    assert!(vertices.bind(&mut cache));
    assert!(indices.bind(&mut cache));
    assert!(!vertices.bind(&mut cache));
    let upload = indices.fill_with(&[1, 2], &mut cache);
    assert!(!upload.bind_issued);
    let upload = vertices.fill_with(vec![1.5f32], &mut cache);
    assert!(!upload.bind_issued);
    assert_eq!(upload.data, vec![1.5]);
}

#[test]
fn fill_binds_only_when_another_buffer_was_bound() {
    let mesh = two_vertex_mesh();
    let mut cache = BindingCache::new();
    let mut first = VertexBuffer::create(1).unwrap();
    let mut second = VertexBuffer::create(2).unwrap();
    assert!(first.fill_from_attributes(&mesh, &vec!["uv"], &mut cache).unwrap().bind_issued);
    assert!(!first.fill_from_attributes(&mesh, &vec!["uv"], &mut cache).unwrap().bind_issued);
    assert!(second.fill_from_attributes(&mesh, &vec!["uv"], &mut cache).unwrap().bind_issued);
    assert_eq!(cache.bound(Target::Array), Some(2));
}

#[test]
fn mesh_lookup_finds_the_first_match() {
    let mut mesh = distinct_mesh();
    mesh.add_attribute("uv".to_string(), 1, vec![0.5, 0.5]);
    assert_eq!(mesh.no_vertices(), 2);
    assert_eq!(mesh.attribute("uv").unwrap().no_components, 2);
    assert!(mesh.attribute("color").is_none());
}
